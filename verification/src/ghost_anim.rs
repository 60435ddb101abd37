//! A full-screen animated ghost, drawn from pre-recorded text frames.
//!
//! Each frame is a list of text lines in which `<c>` … `</c>` tags mark
//! the characters that belong to the coloured aura around the ghost.

use ratatui::buffer::Buffer;
use vstd::prelude::*;
use crate::buffer::{
    buffer_cells, buffer_holds, set_cell_bg, set_cell_char, set_cell_default_style, set_cell_fg, Area,
};
use crate::text::chars_of;

verus! {

/// Milliseconds each frame stays on screen (about 28.6 frames a second).
pub const FRAME_DELAY_MS: u64 = 35;

/// Width of a frame, in terminal cells.
pub const IMAGE_WIDTH: usize = 77;

/// Height of a frame, in terminal cells.
pub const IMAGE_HEIGHT: usize = 41;

/// A single cell: the character, and whether it's part of the colored
/// aura.
pub type Cell = (char, bool);

/// Whether `s` starts with the tag that opens the aura, `<c>`.
pub open spec fn starts_with_open_tag(s: Seq<char>) -> bool {
    s.len() >= 3 && s[0] == '<' && s[1] == 'c' && s[2] == '>'
}

/// Whether `s` starts with the tag that closes the aura, `</c>`.
pub open spec fn starts_with_close_tag(s: Seq<char>) -> bool {
    s.len() >= 4 && s[0] == '<' && s[1] == '/' && s[2] == 'c' && s[3] == '>'
}

/// The cells of the text `s`, read from its start with the aura on or off
/// as `colored` says: `<c>` turns the aura on, `</c>` turns it off, and
/// every other character becomes a cell that is coloured while the aura
/// is on.
#[verifier::opaque]
pub open spec fn parse_cells(s: Seq<char>, colored: bool) -> Seq<Cell>
    decreases s.len(),
{
    if s.len() == 0 {
        seq![]
    } else if starts_with_open_tag(s) {
        parse_cells(s.skip(3), true)
    } else if starts_with_close_tag(s) {
        parse_cells(s.skip(4), false)
    } else {
        seq![(s[0], colored)] + parse_cells(s.drop_first(), colored)
    }
}

/// The steps of [`parse_cells`] at the end of the text and at a tag.
proof fn lemma_parse_steps(s: Seq<char>, colored: bool)
    ensures
        s.len() == 0 ==> parse_cells(s, colored) == Seq::<Cell>::empty(),
        starts_with_open_tag(s) ==> parse_cells(s, colored) == parse_cells(s.skip(3), true),
        starts_with_close_tag(s) && !starts_with_open_tag(s) ==> parse_cells(s, colored)
            == parse_cells(s.skip(4), false),
{
    reveal(parse_cells);
}

/// One step of [`parse_cells`] on a text that starts with an ordinary
/// character.
proof fn lemma_parse_plain_step(s: Seq<char>, colored: bool)
    requires
        s.len() > 0,
        !starts_with_open_tag(s),
        !starts_with_close_tag(s),
    ensures
        parse_cells(s, colored) =~= seq![(s[0], colored)] + parse_cells(
            s.drop_first(),
            colored,
        ),
{
    reveal(parse_cells);
}

/// The cells of each line of each frame.
pub open spec fn parse_frames(raw: Seq<Seq<Seq<char>>>) -> Seq<Seq<Seq<Cell>>> {
    Seq::new(
        raw.len(),
        |f: int| Seq::new(raw[f].len(), |l: int| parse_cells(raw[f][l], false)),
    )
}

/// What `serde_json::from_str` makes of `text` as a list of frames, each
/// a list of lines: the lines' characters, or `None` where the text is
/// not such JSON.
pub uninterp spec fn json_frames(text: Seq<char>) -> Option<Seq<Seq<Seq<char>>>>;

/// `serde_json::Error`, opaque to Verus; the library only tells it apart
/// from success.
#[verifier::external_type_specification]
#[verifier::external_body]
pub struct ExJsonError(serde_json::Error);

/// `serde_json::from_str::<Vec<Vec<String>>>`: the frames that the JSON
/// text holds, as named by [`json_frames`]; an error exactly where the
/// text is not a JSON array of arrays of strings.
#[verifier::external_body]
fn parse_json_frames(text: &str) -> (res: Result<Vec<Vec<String>>, serde_json::Error>)
    ensures
        match res {
            Ok(frames) => json_frames(text@) == Some(frames.deep_view()),
            Err(_) => json_frames(text@) is None,
        },
{
    serde_json::from_str(text)
}

/// Why animation data could not be loaded.
#[derive(Clone, Copy, Debug, PartialEq, Eq, Structural)]
pub enum GhostDataError {
    /// The text is not a JSON list of frames of text lines.
    Malformed,
}

/// Parse a line with `<c>...</c>` color tags into cells.
///
/// The tags are plain ASCII, so looking for them one character at a time
/// finds exactly what a byte-by-byte scan finds.
pub fn parse_line(line: &str) -> (cells: Vec<Cell>)
    ensures
        cells@ == parse_cells(line@, false),
{
    let cs = chars_of(line);
    let mut result: Vec<Cell> = Vec::with_capacity(IMAGE_WIDTH);
    let mut colored = false;
    let mut i: usize = 0;
    assert(cs@.skip(0) =~= cs@);
    while i < cs.len()
        invariant
            i <= cs.len(),
            cs@ == line@,
            result@ + parse_cells(cs@.skip(i as int), colored) == parse_cells(line@, false),
        decreases cs.len() - i,
    {
        let ghost rest = cs@.skip(i as int);
        if cs.len() - i >= 3 && cs[i] == '<' && cs[i + 1] == 'c' && cs[i + 2] == '>' {
            assert(rest.skip(3) =~= cs@.skip(i + 3));
            proof {
                lemma_parse_steps(rest, colored);
            }
            colored = true;
            i = i + 3;
        } else if cs.len() - i >= 4 && cs[i] == '<' && cs[i + 1] == '/' && cs[i + 2] == 'c' && cs[i
            + 3] == '>' {
            assert(rest.skip(4) =~= cs@.skip(i + 4));
            proof {
                lemma_parse_steps(rest, colored);
            }
            colored = false;
            i = i + 4;
        } else {
            let ch = cs[i];
            proof {
                lemma_parse_plain_step(rest, colored);
            }
            let ghost before = result@;
            result.push((ch, colored));
            assert(result@ =~= before + seq![(ch, colored)]);
            assert(rest.drop_first() =~= cs@.skip(i + 1));
            i = i + 1;
            assert(result@ + parse_cells(cs@.skip(i as int), colored) =~= parse_cells(
                line@,
                false,
            ));
        }
    }
    assert(cs@.skip(i as int) =~= Seq::<char>::empty());
    proof {
        lemma_parse_steps(cs@.skip(i as int), colored);
    }
    assert(result@ + Seq::<Cell>::empty() =~= result@);
    result
}

/// Pre-parsed ghost animation frames.
pub struct GhostAnimation {
    frames: Vec<Vec<Vec<Cell>>>,
}

impl GhostAnimation {
    /// The cells of each line of each frame.
    pub closed spec fn frames(&self) -> Seq<Seq<Seq<Cell>>> {
        Seq::new(
            self.frames@.len(),
            |f: int| Seq::new(self.frames@[f]@.len(), |l: int| self.frames@[f]@[l]@),
        )
    }

    /// Build the animation from the text lines of its frames.
    pub fn from_raw_frames(raw: &Vec<Vec<String>>) -> (g: Self)
        ensures
            g.frames() == parse_frames(raw.deep_view()),
            g.frames().len() == raw@.len(),
            forall|f: int|
                0 <= f < raw@.len() ==> #[trigger] g.frames()[f].len() == raw@[f]@.len(),
            forall|f: int, l: int|
                0 <= f < raw@.len() && 0 <= l < raw@[f]@.len() ==> #[trigger] g.frames()[f][l]
                    == parse_cells(raw@[f]@[l]@, false),
    {
        let mut frames: Vec<Vec<Vec<Cell>>> = Vec::new();
        let mut f: usize = 0;
        while f < raw.len()
            invariant
                f <= raw.len(),
                frames@.len() == f,
                forall|j: int|
                    0 <= j < f ==> (#[trigger] frames@[j])@.len() == raw@[j]@.len() && forall|
                        l: int,
                    |
                        0 <= l < raw@[j]@.len() ==> (#[trigger] frames@[j]@[l])@ == parse_cells(
                            raw@[j]@[l]@,
                            false,
                        ),
            decreases raw.len() - f,
        {
            let mut lines: Vec<Vec<Cell>> = Vec::new();
            let mut l: usize = 0;
            while l < raw[f].len()
                invariant
                    f < raw.len(),
                    l <= raw@[f as int]@.len(),
                    lines@.len() == l,
                    forall|k: int|
                        0 <= k < l ==> (#[trigger] lines@[k])@ == parse_cells(
                            raw@[f as int]@[k]@,
                            false,
                        ),
                decreases raw@[f as int]@.len() - l,
            {
                let cells = parse_line(raw[f][l].as_str());
                lines.push(cells);
                l = l + 1;
            }
            frames.push(lines);
            f = f + 1;
        }
        let g = GhostAnimation { frames };
        assert(g.frames() =~= parse_frames(raw.deep_view())) by {
            assert forall|j: int| 0 <= j < raw@.len() implies #[trigger] g.frames()[j]
                =~= parse_frames(raw.deep_view())[j] by {
                assert(frames@[j]@.len() == raw@[j]@.len());
            }
        }
        g
    }

    /// Load the animation from JSON text: a list of frames, each a list of
    /// text lines.
    pub fn load(json: &str) -> (g: Self)
        requires
            json_frames(json@) is Some,
        ensures
            g.frames() == parse_frames(json_frames(json@)->0),
    {
        match parse_json_frames(json) {
            Ok(raw) => Self::from_raw_frames(&raw),
            Err(_) => {
                assert(false);
                GhostAnimation { frames: Vec::new() }
            },
        }
    }

    /// Load the animation from JSON text, or say that the text does not
    /// hold a list of frames of text lines. The text is parsed once to
    /// test it and once more by [`Self::load`].
    pub fn try_load(json: &str) -> (r: Result<Self, GhostDataError>)
        ensures
            match r {
                Ok(g) => json_frames(json@) is Some && g.frames() == parse_frames(
                    json_frames(json@)->0,
                ),
                Err(e) => json_frames(json@) is None && e == GhostDataError::Malformed,
            },
    {
        match parse_json_frames(json) {
            Ok(_) => Ok(Self::load(json)),
            Err(_) => Err(GhostDataError::Malformed),
        }
    }

    /// Whether every frame and line is short enough for [`Self::draw`]
    /// (see [`frames_fit`]).
    pub fn frames_fit_screen(&self) -> (b: bool)
        ensures
            b == frames_fit(self.frames()),
    {
        let mut f: usize = 0;
        while f < self.frames.len()
            invariant
                f <= self.frames@.len(),
                forall|j: int|
                    0 <= j < f ==> #[trigger] self.frames()[j].len() <= 0x7fff_0000 && forall|
                        l: int,
                    |
                        0 <= l < self.frames()[j].len() ==> #[trigger] self.frames()[j][l].len()
                            <= 0x7fff_0000,
            decreases self.frames@.len() - f,
        {
            let frame = &self.frames[f];
            if frame.len() > 0x7fff_0000 {
                assert(self.frames()[f as int].len() > 0x7fff_0000);
                return false;
            }
            let mut l: usize = 0;
            while l < frame.len()
                invariant
                    f < self.frames@.len(),
                    *frame == self.frames@[f as int],
                    l <= frame@.len(),
                    forall|k: int|
                        0 <= k < l ==> #[trigger] self.frames()[f as int][k].len() <= 0x7fff_0000,
                decreases frame@.len() - l,
            {
                if frame[l].len() > 0x7fff_0000 {
                    assert(self.frames()[f as int][l as int].len() > 0x7fff_0000);
                    assert(0 <= f < self.frames().len() && self.frames()[f as int].len()
                        == frame@.len());
                    return false;
                }
                l = l + 1;
            }
            f = f + 1;
        }
        true
    }

    /// Number of frames.
    pub fn frame_count(&self) -> (n: usize)
        ensures
            n == self.frames().len(),
    {
        self.frames.len()
    }

    /// Draw as [`Self::draw`] does when it can (see [`can_draw`]), and say
    /// whether it did; otherwise the buffer is left as it was.
    pub fn try_draw(&self, buf: &mut Buffer, area: Area, elapsed_ms: u64) -> (drawn: bool)
        ensures
            drawn == can_draw(
                self.frames(),
                buffer_cells(*old(buf)),
                area.width as int,
                area.height as int,
            ),
            buffer_cells(*final(buf)) == if drawn {
                ghost_screen(
                    buffer_cells(*old(buf)),
                    self.frames()[frame_at(elapsed_ms, self.frames().len())],
                    area.width as int,
                    area.height as int,
                )
            } else {
                buffer_cells(*old(buf))
            },
    {
        if self.frames.len() == 0 || !self.frames_fit_screen() {
            return false;
        }
        let ghost cells = buffer_cells(*buf);
        let mut y: u16 = 0;
        while y < area.height
            invariant
                y <= area.height,
                cells == buffer_cells(*buf),
                cells == buffer_cells(*old(buf)),
                forall|x: u16, y2: u16|
                    x < area.width && y2 < y ==> #[trigger] cells.contains_key((x, y2)),
            decreases area.height - y,
        {
            let mut x: u16 = 0;
            while x < area.width
                invariant
                    x <= area.width,
                    y < area.height,
                    cells == buffer_cells(*buf),
                    cells == buffer_cells(*old(buf)),
                    forall|x2: u16, y2: u16|
                        x2 < area.width && (y2 < y || (y2 == y && x2 < x)) ==> #[trigger] cells.contains_key(
                            (x2, y2),
                        ),
                decreases area.width - x,
            {
                if !buffer_holds(buf, x, y) {
                    assert(!cells.contains_key((x, y)));
                    return false;
                }
                x = x + 1;
            }
            y = y + 1;
        }
        self.draw(buf, area, elapsed_ms);
        true
    }

    /// Draw the frame on screen `elapsed_ms` milliseconds into the
    /// animation over the whole of `area` (see [`ghost_screen`]).
    pub fn draw(&self, buf: &mut Buffer, area: Area, elapsed_ms: u64)
        requires
            can_draw(self.frames(), buffer_cells(*old(buf)), area.width as int, area.height as int),
        ensures
            buffer_cells(*final(buf)) == ghost_screen(
                buffer_cells(*old(buf)),
                self.frames()[frame_at(elapsed_ms, self.frames().len())],
                area.width as int,
                area.height as int,
            ),
    {
        let ghost start = buffer_cells(*buf);
        let ghost aw = area.width as int;
        let ghost ah = area.height as int;
        // Dark background
        let mut y: u16 = 0;
        assert(start =~= blanked_upto(start, aw, ah, 0, 0));
        while y < area.height
            invariant
                y <= area.height,
                aw == area.width,
                ah == area.height,
                start == buffer_cells(*old(buf)),
                forall|p: (u16, u16)| #[trigger] buffer_cells(*old(buf)).contains_key(p) ==> buffer_cells(*buf).contains_key(p),
                forall|x: u16, y: u16|
                    x < area.width && y < area.height ==> #[trigger] buffer_cells(*old(buf)).contains_key((x, y)),
                buffer_cells(*buf) == blanked_upto(start, aw, ah, y as int, 0),
            decreases area.height - y,
        {
            let mut x: u16 = 0;
            while x < area.width
                invariant
                    x <= area.width,
                    y < area.height,
                    aw == area.width,
                    ah == area.height,
                    start == buffer_cells(*old(buf)),
                    forall|p: (u16, u16)| #[trigger] buffer_cells(*old(buf)).contains_key(p) ==> buffer_cells(*buf).contains_key(p),
                    forall|x: u16, y: u16|
                        x < area.width && y < area.height ==> #[trigger] buffer_cells(*old(buf)).contains_key((x, y)),
                    buffer_cells(*buf) == blanked_upto(start, aw, ah, y as int, x as int),
                decreases area.width - x,
            {
                let ghost before = buffer_cells(*buf);
                set_cell_char(buf, x, y, ' ');
                set_cell_bg(buf, x, y, 10, 8, 16);
                set_cell_fg(buf, x, y, 10, 8, 16);
                assert(before[(x, y)] == start[(x, y)]);
                x = x + 1;
                assert(buffer_cells(*buf) =~= blanked_upto(start, aw, ah, y as int, x as int));
            }
            y = y + 1;
            assert(buffer_cells(*buf) =~= blanked_upto(start, aw, ah, y as int, 0));
        }
        let ghost blank = buffer_cells(*buf);
        let idx = self.frame_index(elapsed_ms);
        let ghost_frame = &self.frames[idx];
        let ghost frame = self.frames()[idx as int];
        // Center on screen
        let dx: i32 = area.width as i32 - 77;
        let start_x: i32 = if dx >= 0 {
            dx / 2
        } else {
            -((-dx) / 2)
        };
        let dy: i32 = area.height as i32 - 41;
        let start_y: i32 = if dy >= 0 {
            dy / 2
        } else {
            -((-dy) / 2)
        };
        assert(start_x == centred(aw, IMAGE_WIDTH as int));
        assert(start_y == centred(ah, IMAGE_HEIGHT as int));
        let mut row: usize = 0;
        assert(blank =~= sprite_upto(
            blank,
            frame,
            start_x as int,
            start_y as int,
            aw,
            ah,
            0,
            0,
        ));
        while row < ghost_frame.len()
            invariant
                row <= frame.len(),
                frame.len() == ghost_frame@.len(),
                frame == self.frames()[idx as int],
                idx < self.frames().len(),
                *ghost_frame == self.frames@[idx as int],
                frames_fit(self.frames()),
                forall|p: (u16, u16)| #[trigger] buffer_cells(*old(buf)).contains_key(p) ==> buffer_cells(*buf).contains_key(p),
                aw == area.width,
                ah == area.height,
                -40 <= start_x <= 32767,
                -40 <= start_y <= 32767,
                forall|x: u16, y: u16|
                    x < area.width && y < area.height ==> #[trigger] buffer_cells(*old(buf)).contains_key((x, y)),
                buffer_cells(*buf) == sprite_upto(
                    blank,
                    frame,
                    start_x as int,
                    start_y as int,
                    aw,
                    ah,
                    row as int,
                    0,
                ),
            decreases ghost_frame@.len() - row,
        {
            let line = &ghost_frame[row];
            let mut col: usize = 0;
            assert(frame[row as int] == line@);
            while col < line.len()
                invariant
                    row < frame.len(),
                    col <= line@.len(),
                    frame[row as int] == line@,
                    frame.len() == ghost_frame@.len(),
                    frame == self.frames()[idx as int],
                    idx < self.frames().len(),
                    frames_fit(self.frames()),
                    forall|p: (u16, u16)| #[trigger] buffer_cells(*old(buf)).contains_key(p) ==> buffer_cells(*buf).contains_key(p),
                    aw == area.width,
                    ah == area.height,
                    -40 <= start_x <= 32767,
                    -40 <= start_y <= 32767,
                    forall|x: u16, y: u16|
                        x < area.width && y < area.height ==> #[trigger] buffer_cells(*old(buf)).contains_key((x, y)),
                    buffer_cells(*buf) == sprite_upto(
                        blank,
                        frame,
                        start_x as int,
                        start_y as int,
                        aw,
                        ah,
                        row as int,
                        col as int,
                    ),
                decreases line@.len() - col,
            {
                let ghost before = buffer_cells(*buf);
                let cell = line[col];
                assert(frame[row as int].len() <= 0x7fff_0000 && frame.len() <= 0x7fff_0000);
                if cell.0 != ' ' {
                    let px: i32 = start_x + col as i32;
                    let py: i32 = start_y + row as i32;
                    if !(px < 0 || py < 0 || px >= area.width as i32 || py >= area.height as i32) {
                        let (r, g, b) = if cell.1 {
                            // Aura: blue
                            (70u8, 120u8, 255u8)
                        } else {
                            // Ghost body: light warm white
                            (210u8, 210u8, 230u8)
                        };
                        let (x, y) = (px as u16, py as u16);
                        assert(buffer_cells(*old(buf)).contains_key((x, y)));
                        set_cell_char(buf, x, y, cell.0);
                        set_cell_fg(buf, x, y, r, g, b);
                        set_cell_default_style(buf, x, y);
                        assert(!sprite_hit(
                            frame,
                            start_x as int,
                            start_y as int,
                            aw,
                            ah,
                            row as int,
                            col as int,
                            (x, y),
                        ));
                        assert(sprite_hit(
                            frame,
                            start_x as int,
                            start_y as int,
                            aw,
                            ah,
                            row as int,
                            col + 1,
                            (x, y),
                        ));
                    }
                }
                col = col + 1;
                assert(buffer_cells(*buf) =~= sprite_upto(
                    blank,
                    frame,
                    start_x as int,
                    start_y as int,
                    aw,
                    ah,
                    row as int,
                    col as int,
                ));
            }
            row = row + 1;
            assert(buffer_cells(*buf) =~= sprite_upto(
                blank,
                frame,
                start_x as int,
                start_y as int,
                aw,
                ah,
                row as int,
                0,
            ));
        }
        // Header
        let header = chars_of("  terminal-zoo  Ghost    \u{2190} \u{2192} switch  q quit");
        assert(header@ == ghost_header());
        if area.width > 10 && area.height > 1 {
            let ghost painted = buffer_cells(*buf);
            let n: usize = if header.len() < area.width as usize {
                header.len()
            } else {
                area.width as usize
            };
            let mut i: usize = 0;
            assert(painted =~= header_upto(painted, header@, 0));
            while i < n
                invariant
                    i <= n,
                    n <= header@.len(),
                    n <= area.width,
                    area.height > 1,
                    forall|p: (u16, u16)| #[trigger] buffer_cells(*old(buf)).contains_key(p) ==> buffer_cells(*buf).contains_key(p),
                    forall|x: u16, y: u16|
                        x < area.width && y < area.height ==> #[trigger] buffer_cells(*old(buf)).contains_key((x, y)),
                    buffer_cells(*buf) == header_upto(painted, header@, i as int),
                decreases n - i,
            {
                let ghost before = buffer_cells(*buf);
                let x = i as u16;
                assert(buffer_cells(*old(buf)).contains_key((x, 0u16)));
                set_cell_char(buf, x, 0, header[i]);
                set_cell_fg(buf, x, 0, 80, 70, 120);
                i = i + 1;
                assert(buffer_cells(*buf) =~= header_upto(painted, header@, i as int));
            }
        }
    }

    /// The frame on screen `elapsed_ms` milliseconds into the animation,
    /// which loops.
    pub fn frame_index(&self, elapsed_ms: u64) -> (idx: usize)
        requires
            self.frames().len() > 0,
        ensures
            idx == frame_at(elapsed_ms, self.frames().len()),
            idx < self.frames().len(),
            elapsed_ms / FRAME_DELAY_MS <= usize::MAX ==> idx == (elapsed_ms / FRAME_DELAY_MS) as int
                % self.frames().len() as int,
    {
        (elapsed_ms / FRAME_DELAY_MS) as usize % self.frames.len()
    }
}

/// The frame on screen `elapsed_ms` milliseconds into an animation of
/// `count` frames.
pub open spec fn frame_at(elapsed_ms: u64, count: nat) -> int {
    (((elapsed_ms / FRAME_DELAY_MS) as usize) % (count as usize)) as int
}

/// The animation loops: after one frame time per frame, the same frame
/// is on screen again.
pub proof fn law_animation_loops(elapsed_ms: u64, count: nat)
    requires
        0 < count <= usize::MAX,
        elapsed_ms + FRAME_DELAY_MS * count <= u64::MAX,
        elapsed_ms / FRAME_DELAY_MS + count <= usize::MAX,
    ensures
        frame_at((elapsed_ms + FRAME_DELAY_MS * count) as u64, count) == frame_at(elapsed_ms, count),
{
    let later = (elapsed_ms + FRAME_DELAY_MS * count) as u64;
    let q = elapsed_ms / FRAME_DELAY_MS;
    assert(later / FRAME_DELAY_MS == q + count) by (nonlinear_arith)
        requires
            later == elapsed_ms + 35 * count,
            q == elapsed_ms / 35,
    ;
    assert(((q + count) as int) % (count as int) == (q as int) % (count as int)) by {
        vstd::arithmetic::div_mod::lemma_mod_add_multiples_vanish(q as int, count as int);
    }
}

/// The frame on screen is the number of whole frame times elapsed,
/// counted round the animation: it advances by exactly one every 35 ms,
/// and within the first round it is the number of frame times elapsed.
pub proof fn law_frame_steps(elapsed_ms: u64, count: nat)
    requires
        0 < count <= usize::MAX,
        elapsed_ms / 35 <= usize::MAX,
    ensures
        frame_at(elapsed_ms, count) == (elapsed_ms / 35) as int % count as int,
        elapsed_ms < 35 * count ==> frame_at(elapsed_ms, count) == elapsed_ms / 35,
{
    let q = elapsed_ms / 35;
    if elapsed_ms < 35 * count {
        assert(q < count) by (nonlinear_arith)
            requires
                q == elapsed_ms / 35,
                elapsed_ms < 35 * count,
        ;
        vstd::arithmetic::div_mod::lemma_small_mod(q as nat, count);
    }
}

/// The frames keep the JSON's frames and lines in order: line `l` of frame
/// `f` is read from line `l` of frame `f`.
pub proof fn law_frames_keep_lines(raw: Seq<Seq<Seq<char>>>, f: int, l: int)
    requires
        0 <= f < raw.len(),
        0 <= l < raw[f].len(),
    ensures
        parse_frames(raw).len() == raw.len(),
        parse_frames(raw)[f].len() == raw[f].len(),
        parse_frames(raw)[f][l] == parse_cells(raw[f][l], false),
{
}

/// `centred` halves the spare room, rounding toward zero: twice the
/// result is the spare room, or one less when it is odd and positive, or
/// one more when it is odd and negative.
pub proof fn law_centred(avail: int, size: int)
    ensures
        avail - size >= 0 ==> 0 <= (avail - size) - 2 * centred(avail, size) <= 1,
        avail - size < 0 ==> -1 <= (avail - size) - 2 * centred(avail, size) <= 0,
{
}

/// Whether the sprite `frame`, centred on an `aw` × `ah` screen, has a
/// non-space cell at `(x, y)`.
pub open spec fn sprite_covers(frame: Seq<Seq<Cell>>, aw: int, ah: int, x: int, y: int) -> bool {
    let r = y - centred(ah, IMAGE_HEIGHT as int);
    let c = x - centred(aw, IMAGE_WIDTH as int);
    0 <= r < frame.len() && 0 <= c < frame[r].len() && frame[r][c].0 != ' '
}

/// Whether the header of the ghost screen covers `(x, y)` on an `aw` ×
/// `ah` screen: the top row of a screen more than 10 wide and 1 high, up
/// to the header's length or the width.
pub open spec fn ghost_header_covers(aw: int, ah: int, x: int, y: int) -> bool {
    aw > 10 && ah > 1 && y == 0 && x < ghost_header().len() && x < aw
}

/// On the ghost screen, every position of the area that neither the
/// sprite nor the header covers is blank: a space on the dark backdrop
/// (10, 8, 16), whatever it held before.
pub proof fn law_ghost_backdrop(cells: CellMap, frame: Seq<Seq<Cell>>, aw: int, ah: int, x: u16, y: u16)
    requires
        x < aw,
        y < ah,
        !sprite_covers(frame, aw, ah, x as int, y as int),
        !ghost_header_covers(aw, ah, x as int, y as int),
    ensures
        ghost_screen(cells, frame, aw, ah).contains_key((x, y)),
        ghost_screen(cells, frame, aw, ah)[(x, y)] == (seq![' '], Some((10u8, 8u8, 16u8)), Some(
            (10u8, 8u8, 16u8),
        )),
{
}

/// On the ghost screen, every non-space cell of the centred sprite that
/// lands in the area and under no header character shows its character,
/// blue (70, 120, 255) in the aura and white (210, 210, 230) in the body,
/// on the backdrop.
pub proof fn law_ghost_sprite(cells: CellMap, frame: Seq<Seq<Cell>>, aw: int, ah: int, x: u16, y: u16)
    requires
        x < aw,
        y < ah,
        sprite_covers(frame, aw, ah, x as int, y as int),
        !ghost_header_covers(aw, ah, x as int, y as int),
    ensures
        ({
            let cell = frame[y - centred(ah, IMAGE_HEIGHT as int)][x - centred(
                aw,
                IMAGE_WIDTH as int,
            )];
            &&& ghost_screen(cells, frame, aw, ah).contains_key((x, y))
            &&& ghost_screen(cells, frame, aw, ah)[(x, y)] == (
                seq![cell.0],
                Some(
                    if cell.1 {
                        (70u8, 120u8, 255u8)
                    } else {
                        (210u8, 210u8, 230u8)
                    },
                ),
                Some((10u8, 8u8, 16u8)),
            )
        }),
{
}

/// On the ghost screen, the header's `x`-th character stands at `(x, 0)` in
/// (80, 70, 120) on the backdrop, for every `x` below both its length and
/// the width, when the screen is more than 10 wide and 1 high.
pub proof fn law_ghost_header(cells: CellMap, frame: Seq<Seq<Cell>>, aw: int, ah: int, x: u16)
    requires
        ghost_header_covers(aw, ah, x as int, 0),
    ensures
        ghost_screen(cells, frame, aw, ah).contains_key((x, 0u16)),
        ghost_screen(cells, frame, aw, ah)[(x, 0u16)] == (
            seq![ghost_header()[x as int]],
            Some((80u8, 70u8, 120u8)),
            Some((10u8, 8u8, 16u8)),
        ),
{
}

/// The contents of terminal buffer cells, by position (see
/// [`buffer_cells`]).
pub type CellMap = Map<(u16, u16), (Seq<char>, Option<(u8, u8, u8)>, Option<(u8, u8, u8)>)>;

/// Background and foreground of the blank screen behind the ghost.
pub open spec fn backdrop_colour() -> (u8, u8, u8) {
    (10, 8, 16)
}

/// Colour of the aura (blue).
pub open spec fn aura_colour() -> (u8, u8, u8) {
    (70, 120, 255)
}

/// Colour of the ghost's body (light warm white).
pub open spec fn body_colour() -> (u8, u8, u8) {
    (210, 210, 230)
}

/// Colour of the header line.
pub open spec fn header_colour() -> (u8, u8, u8) {
    (80, 70, 120)
}

/// The header line shown over the ghost.
pub open spec fn ghost_header() -> Seq<char> {
    "  terminal-zoo  Ghost    \u{2190} \u{2192} switch  q quit"@
}

/// Where a picture of `size` cells starts so that it is centred in
/// `avail` cells: half the difference, rounded toward zero.
pub open spec fn centred(avail: int, size: int) -> int {
    let d = avail - size;
    if d >= 0 {
        d / 2
    } else {
        -((-d) / 2)
    }
}

/// `cells` after blanking, row by row up to `(col, row)`, the positions
/// of the first `aw` columns and `ah` rows: a space on the backdrop colour.
pub open spec fn blanked_upto(cells: CellMap, aw: int, ah: int, row: int, col: int) -> CellMap {
    let hit = |p: (u16, u16)| p.0 < aw && p.1 < ah && (p.1 < row || (p.1 == row && p.0 < col));
    Map::new(
        |p: (u16, u16)| cells.contains_key(p) || hit(p),
        |p: (u16, u16)|
            if hit(p) {
                (seq![' '], Some(backdrop_colour()), Some(backdrop_colour()))
            } else {
                cells[p]
            },
    )
}

/// Whether the sprite `frame`, placed with its top-left cell at
/// `(sx, sy)` and drawn line by line up to cell `col` of line `row`,
/// has painted position `p`: the cell there is not a space and `p` lies
/// within the first `aw` columns and `ah` rows.
pub open spec fn sprite_hit(
    frame: Seq<Seq<Cell>>,
    sx: int,
    sy: int,
    aw: int,
    ah: int,
    row: int,
    col: int,
    p: (u16, u16),
) -> bool {
    let r = p.1 - sy;
    let c = p.0 - sx;
    &&& 0 <= r < frame.len()
    &&& 0 <= c < frame[r].len()
    &&& r < row || (r == row && c < col)
    &&& frame[r][c].0 != ' '
    &&& p.0 < aw
    &&& p.1 < ah
}

/// `cells` after painting the sprite up to cell `col` of line `row` (see
/// [`sprite_hit`]): each painted position shows its character, in the
/// aura colour or the body colour.
pub open spec fn sprite_upto(
    cells: CellMap,
    frame: Seq<Seq<Cell>>,
    sx: int,
    sy: int,
    aw: int,
    ah: int,
    row: int,
    col: int,
) -> CellMap {
    Map::new(
        |p: (u16, u16)| cells.contains_key(p) || sprite_hit(frame, sx, sy, aw, ah, row, col, p),
        |p: (u16, u16)|
            if sprite_hit(frame, sx, sy, aw, ah, row, col, p) {
                let cell = frame[p.1 - sy][p.0 - sx];
                (
                    seq![cell.0],
                    Some(if cell.1 { aura_colour() } else { body_colour() }),
                    cells[p].2,
                )
            } else {
                cells[p]
            },
    )
}

/// `cells` after writing the first `n` characters of `text` along the
/// top row.
pub open spec fn header_upto(cells: CellMap, text: Seq<char>, n: int) -> CellMap {
    let hit = |p: (u16, u16)| p.1 == 0 && p.0 < n;
    Map::new(
        |p: (u16, u16)| cells.contains_key(p) || hit(p),
        |p: (u16, u16)|
            if hit(p) {
                (seq![text[p.0 as int]], Some(header_colour()), cells[p].2)
            } else {
                cells[p]
            },
    )
}

/// The screen `cells` after drawing `frame` on an area of `aw` × `ah`:
/// the area is blanked, the frame is centred on it, and when the area is
/// more than 10 wide and 1 high the header runs along its top row, cut
/// at its width.
pub open spec fn ghost_screen(cells: CellMap, frame: Seq<Seq<Cell>>, aw: int, ah: int) -> CellMap {
    let blank = blanked_upto(cells, aw, ah, ah, 0);
    let sx = centred(aw, IMAGE_WIDTH as int);
    let sy = centred(ah, IMAGE_HEIGHT as int);
    let painted = sprite_upto(blank, frame, sx, sy, aw, ah, frame.len() as int, 0);
    if aw > 10 && ah > 1 {
        let n = if ghost_header().len() < aw { ghost_header().len() as int } else { aw };
        header_upto(painted, ghost_header(), n)
    } else {
        painted
    }
}

/// Whether the animation `frames` can be drawn over an area of `aw` ×
/// `ah` into a buffer holding `cells`: there is a frame, every frame fits
/// the screen arithmetic, and the buffer holds every position of the
/// area.
pub open spec fn can_draw(
    frames: Seq<Seq<Seq<Cell>>>,
    cells: CellMap,
    aw: int,
    ah: int,
) -> bool {
    &&& frames.len() > 0
    &&& frames_fit(frames)
    &&& forall|x: u16, y: u16| x < aw && y < ah ==> #[trigger] cells.contains_key((x, y))
}

/// Whether every frame and every line is short enough for the screen
/// arithmetic, done in 32-bit integers, not to overflow.
pub open spec fn frames_fit(frames: Seq<Seq<Seq<Cell>>>) -> bool {
    forall|f: int|
        0 <= f < frames.len() ==> #[trigger] frames[f].len() <= 0x7fff_0000 && forall|l: int|
            0 <= l < frames[f].len() ==> #[trigger] frames[f][l].len() <= 0x7fff_0000
}

/// Text without `<` becomes one cell per character, all outside the
/// aura.
pub proof fn law_plain_line(s: Seq<char>)
    requires
        forall|i: int| 0 <= i < s.len() ==> s[i] != '<',
    ensures
        parse_cells(s, false) == s.map_values(|c: char| (c, false)),
    decreases s.len(),
{
    if s.len() > 0 {
        law_plain_line(s.drop_first());
        let f = |c: char| (c, false);
        lemma_parse_plain_step(s, false);
        assert(s.drop_first().map_values(f) =~= s.map_values(f).drop_first());
        assert(parse_cells(s, false) =~= s.map_values(f));
    } else {
        lemma_parse_steps(s, false);
        assert(parse_cells(s, false) =~= s.map_values(|c: char| (c, false)));
    }
}

/// The cells never outnumber the characters of the line.
pub proof fn law_cells_at_most_chars(s: Seq<char>, colored: bool)
    ensures
        parse_cells(s, colored).len() <= s.len(),
    decreases s.len(),
{
    lemma_parse_steps(s, colored);
    if s.len() > 0 {
        if starts_with_open_tag(s) {
            assert(s.skip(3).len() == s.len() - 3);
            law_cells_at_most_chars(s.skip(3), true);
        } else if starts_with_close_tag(s) {
            assert(s.skip(4).len() == s.len() - 4);
            law_cells_at_most_chars(s.skip(4), false);
        } else {
            lemma_parse_plain_step(s, colored);
            law_cells_at_most_chars(s.drop_first(), colored);
        }
    }
}


/// Text without `<` passes through the parser one cell per character,
/// whatever follows it, with the aura as it was.
proof fn lemma_plain_prefix(t: Seq<char>, rest: Seq<char>, colored: bool)
    requires
        forall|i: int| 0 <= i < t.len() ==> t[i] != '<',
    ensures
        parse_cells(t + rest, colored) =~= t.map_values(|c: char| (c, colored)) + parse_cells(
            rest,
            colored,
        ),
    decreases t.len(),
{
    if t.len() > 0 {
        let s = t + rest;
        assert(s[0] == t[0]);
        lemma_parse_plain_step(s, colored);
        assert(s.drop_first() =~= t.drop_first() + rest);
        lemma_plain_prefix(t.drop_first(), rest, colored);
        let f = |c: char| (c, colored);
        assert(t.map_values(f) =~= seq![f(t[0])] + t.drop_first().map_values(f));
    } else {
        assert(t + rest =~= rest);
    }
}

/// Text without `<` wrapped in `<c>` … `</c>` becomes one aura cell per
/// character.
pub proof fn law_tagged_text(t: Seq<char>)
    requires
        forall|i: int| 0 <= i < t.len() ==> t[i] != '<',
    ensures
        parse_cells(seq!['<', 'c', '>'] + t + seq!['<', '/', 'c', '>'], false) == t.map_values(
            |c: char| (c, true),
        ),
{
    let close = seq!['<', '/', 'c', '>'];
    let s = seq!['<', 'c', '>'] + t + close;
    lemma_parse_steps(s, false);
    assert(s.skip(3) =~= t + close);
    lemma_plain_prefix(t, close, true);
    lemma_parse_steps(close, true);
    assert(close.skip(4) =~= Seq::<char>::empty());
    lemma_parse_steps(close.skip(4), false);
    assert(t.map_values(|c: char| (c, true)) + Seq::<Cell>::empty() =~= t.map_values(
        |c: char| (c, true),
    ));
}

} // verus!
