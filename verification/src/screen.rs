//! What the pond program does with its input, and its header line.

use ratatui::buffer::Buffer;
use vstd::prelude::*;
use crate::buffer::{buffer_cells, buffer_holds, set_cell_bg, set_cell_char, set_cell_fg, Area};
use crate::text::chars_of;

verus! {

/// A key press or a mouse click, as the program sees it.
#[derive(Clone, Copy, Debug, PartialEq, Eq, Structural)]
pub enum Input {
    /// A printable key.
    Key(char),
    /// The up arrow.
    Up,
    /// The down arrow.
    Down,
    /// The escape key.
    Esc,
    /// A left click on terminal cell `(column, row)`.
    LeftClick { column: u16, row: u16 },
    /// A right click on terminal cell `(column, row)`.
    RightClick { column: u16, row: u16 },
}

/// What the program does in answer to an input.
#[derive(Clone, Copy, Debug, PartialEq, Eq, Structural)]
pub enum Command {
    /// Leave the program.
    Quit,
    /// Run the simulation faster.
    SpeedUp,
    /// Run the simulation slower.
    SlowDown,
    /// Add a koi.
    AddFish,
    /// Remove a koi.
    RemoveFish,
    /// Turn the rain on or off.
    ToggleRain,
    /// Drop food at a random spot.
    FeedAtRandom,
    /// Drop food where terminal cell `(column, row)` is.
    FeedAt { column: u16, row: u16 },
    /// Scare the koi and frogs near terminal cell `(column, row)`.
    ScareAt { column: u16, row: u16 },
    /// Nothing.
    Ignore,
}

/// The command for each input: `q` or Esc quits, the arrows change the
/// speed, `+` or `=` adds a koi and `-` removes one, `r` toggles rain
/// and `f` feeds at a random spot (either case for both), a left click
/// feeds where it lands and a right click scares there.
pub open spec fn command_of(input: Input) -> Command {
    match input {
        Input::Key(c) => if c == 'q' {
            Command::Quit
        } else if c == '+' || c == '=' {
            Command::AddFish
        } else if c == '-' {
            Command::RemoveFish
        } else if c == 'r' || c == 'R' {
            Command::ToggleRain
        } else if c == 'f' || c == 'F' {
            Command::FeedAtRandom
        } else {
            Command::Ignore
        },
        Input::Up => Command::SpeedUp,
        Input::Down => Command::SlowDown,
        Input::Esc => Command::Quit,
        Input::LeftClick { column, row } => Command::FeedAt { column, row },
        Input::RightClick { column, row } => Command::ScareAt { column, row },
    }
}

/// The command for an input (see [`command_of`]).
pub fn command_for(input: Input) -> (c: Command)
    ensures
        c == command_of(input),
{
    match input {
        Input::Key('q') | Input::Esc => Command::Quit,
        Input::Up => Command::SpeedUp,
        Input::Down => Command::SlowDown,
        Input::Key('+') | Input::Key('=') => Command::AddFish,
        Input::Key('-') => Command::RemoveFish,
        Input::Key('r') | Input::Key('R') => Command::ToggleRain,
        Input::Key('f') | Input::Key('F') => Command::FeedAtRandom,
        Input::LeftClick { column, row } => Command::FeedAt { column, row },
        Input::RightClick { column, row } => Command::ScareAt { column, row },
        _ => Command::Ignore,
    }
}

/// Foreground of the header line.
pub open spec fn header_fg() -> (u8, u8, u8) {
    (60, 55, 85)
}

/// Background of the header line.
pub open spec fn header_bg() -> (u8, u8, u8) {
    (10, 16, 28)
}

/// The header writes no more than this many characters: the text, cut at
/// the area's width.
pub open spec fn header_len(text: Seq<char>, width: int) -> int {
    if text.len() < width {
        text.len() as int
    } else {
        width
    }
}

/// `cells` after writing the first `n` characters of `text` along the top
/// row in the header colours.
pub open spec fn header_written(
    cells: Map<(u16, u16), (Seq<char>, Option<(u8, u8, u8)>, Option<(u8, u8, u8)>)>,
    text: Seq<char>,
    n: int,
) -> Map<(u16, u16), (Seq<char>, Option<(u8, u8, u8)>, Option<(u8, u8, u8)>)> {
    let hit = |p: (u16, u16)| p.1 == 0 && p.0 < n;
    Map::new(
        |p: (u16, u16)| cells.contains_key(p) || hit(p),
        |p: (u16, u16)|
            if hit(p) {
                (seq![text[p.0 as int]], Some(header_fg()), Some(header_bg()))
            } else {
                cells[p]
            },
    )
}

/// Whether a buffer holding `cells` has every position the header `text`
/// is written to on an area `width` wide.
pub open spec fn header_fits(
    cells: Map<(u16, u16), (Seq<char>, Option<(u8, u8, u8)>, Option<(u8, u8, u8)>)>,
    text: Seq<char>,
    width: int,
) -> bool {
    width > 20 ==> forall|x: u16| x < header_len(text, width) ==> #[trigger] cells.contains_key((x, 0u16))
}

/// On an area more than 20 wide, the header writes every character of the
/// text that fits: character `i` stands at `(i, 0)` in (60, 55, 85) on
/// (10, 16, 28) for every `i` below both the text's length and the width,
/// so a text shorter than the area is written in full.
pub proof fn law_header_writes_text(
    cells: Map<(u16, u16), (Seq<char>, Option<(u8, u8, u8)>, Option<(u8, u8, u8)>)>,
    text: Seq<char>,
    width: int,
    i: u16,
)
    requires
        width > 20,
        i < text.len(),
        i < width,
    ensures
        header_written(cells, text, header_len(text, width)).contains_key((i, 0u16)),
        header_written(cells, text, header_len(text, width))[(i, 0u16)] == (
            seq![text[i as int]],
            Some((60u8, 55u8, 85u8)),
            Some((10u8, 16u8, 28u8)),
        ),
{
}

/// The header covers no more than the text and the width: beyond
/// `min(text length, width)` on the top row, and on every other row, the
/// cells are as they were.
pub proof fn law_header_writes_nothing_else(
    cells: Map<(u16, u16), (Seq<char>, Option<(u8, u8, u8)>, Option<(u8, u8, u8)>)>,
    text: Seq<char>,
    width: int,
    p: (u16, u16),
)
    requires
        cells.contains_key(p),
        p.1 != 0 || p.0 >= text.len() || p.0 >= width,
    ensures
        header_written(cells, text, header_len(text, width))[p] == cells[p],
{
}

/// Write the header line as [`draw_header`] does when the buffer holds
/// every position it is written to, and say whether it did; otherwise the
/// buffer is left as it was.
pub fn try_draw_header(buf: &mut Buffer, area: Area, text: &str) -> (drawn: bool)
    ensures
        drawn == header_fits(buffer_cells(*old(buf)), text@, area.width as int),
        buffer_cells(*final(buf)) == if !drawn || area.width <= 20 {
            buffer_cells(*old(buf))
        } else {
            header_written(buffer_cells(*old(buf)), text@, header_len(text@, area.width as int))
        },
{
    if area.width > 20 {
        let ghost cells = buffer_cells(*buf);
        let chars = chars_of(text);
        let n: usize = if chars.len() < area.width as usize {
            chars.len()
        } else {
            area.width as usize
        };
        let mut i: usize = 0;
        while i < n
            invariant
                i <= n,
                chars@ == text@,
                n == header_len(text@, area.width as int),
                n <= area.width,
                cells == buffer_cells(*buf),
                cells == buffer_cells(*old(buf)),
                area.width > 20,
                forall|x: u16| x < i ==> #[trigger] cells.contains_key((x, 0u16)),
            decreases n - i,
        {
            if !buffer_holds(buf, i as u16, 0) {
                assert(!cells.contains_key((i as u16, 0u16)));
                assert((i as u16) < header_len(text@, area.width as int));
                return false;
            }
            i = i + 1;
        }
    }
    draw_header(buf, area, text);
    true
}

/// Write the header line `text` along the top row of `area`, cut at its
/// width; an area 20 cells wide or narrower gets no header.
pub fn draw_header(buf: &mut Buffer, area: Area, text: &str)
    requires
        header_fits(buffer_cells(*old(buf)), text@, area.width as int),
    ensures
        buffer_cells(*final(buf)) == if area.width <= 20 {
            buffer_cells(*old(buf))
        } else {
            header_written(buffer_cells(*old(buf)), text@, header_len(text@, area.width as int))
        },
{
    if area.width <= 20 {
        return;
    }
    let ghost start = buffer_cells(*buf);
    let chars = chars_of(text);
    let n: usize = if chars.len() < area.width as usize {
        chars.len()
    } else {
        area.width as usize
    };
    let mut i: usize = 0;
    assert(start =~= header_written(start, text@, 0));
    while i < n
        invariant
            i <= n,
            chars@ == text@,
            n == header_len(text@, area.width as int),
            n <= area.width,
            area.width > 20,
            start == buffer_cells(*old(buf)),
            forall|x: u16|
                x < header_len(text@, area.width as int) ==> #[trigger] buffer_cells(*old(buf)).contains_key((x, 0u16)),
            buffer_cells(*buf) == header_written(start, text@, i as int),
        decreases n - i,
    {
        let x = i as u16;
        set_cell_char(buf, x, 0, chars[i]);
        set_cell_fg(buf, x, 0, 60, 55, 85);
        set_cell_bg(buf, x, 0, 10, 16, 28);
        i = i + 1;
        assert(buffer_cells(*buf) =~= header_written(start, text@, i as int));
    }
}

} // verus!
