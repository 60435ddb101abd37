//! Braille sub-pixel canvas for high-resolution terminal rendering.
//!
//! Each terminal cell maps to a 2×4 grid of sub-pixels using Unicode
//! braille characters (U+2800–U+28FF). This gives 8× the resolution
//! of normal character rendering.

use vstd::prelude::*;
use vstd::utf8::is_scalar;
use ratatui::buffer::Buffer;
use crate::buffer::{
    buffer_cells, buffer_holds, set_cell_char, set_cell_default_style, set_cell_fg, Area,
};

verus! {

/// A sub-pixel: whether it is lit, and its red, green and blue.
pub type Pixel = (bool, u8, u8, u8);

/// The value of a sub-pixel that was never set.
pub open spec fn unlit() -> Pixel {
    (false, 0u8, 0u8, 0u8)
}

/// The positions of a `w` × `h` grid of sub-pixels.
pub open spec fn grid(w: int, h: int) -> Set<(int, int)> {
    Set::new(|q: (int, int)| 0 <= q.0 < w && 0 <= q.1 < h)
}

/// What a read of position `(x, y)` gives on a canvas whose contents
/// are `v`: the sub-pixel there, or an unlit one off the grid.
pub open spec fn pixel_of(v: Map<(int, int), Pixel>, x: int, y: int) -> Pixel {
    if v.contains_key((x, y)) {
        v[(x, y)]
    } else {
        unlit()
    }
}

/// `v` with every position of the rectangle `[xlo, xhi) × [ylo, yhi)`
/// that lies on the grid set to `p`; positions off the grid are ignored.
pub open spec fn painted(
    v: Map<(int, int), Pixel>,
    xlo: int,
    xhi: int,
    ylo: int,
    yhi: int,
    p: Pixel,
) -> Map<(int, int), Pixel> {
    Map::new(
        |q: (int, int)| v.contains_key(q),
        |q: (int, int)| if xlo <= q.0 < xhi && ylo <= q.1 < yhi { p } else { v[q] },
    )
}

/// `v` after setting the single sub-pixel `(x, y)` to `p`.
pub open spec fn with_dot(v: Map<(int, int), Pixel>, x: int, y: int, p: Pixel) -> Map<
    (int, int),
    Pixel,
> {
    painted(v, x, x + 1, y, y + 1, p)
}

/// First code point of the Unicode braille block.
pub const BRAILLE_BASE: u32 = 0x2800;

/// Bit of the braille pattern for the sub-pixel in column `dx` (0 or 1)
/// and row `dy` (0 to 3) of a terminal cell.
pub open spec fn braille_dot(dx: int, dy: int) -> u32 {
    if dx == 0 {
        if dy == 0 {
            0x01
        } else if dy == 1 {
            0x02
        } else if dy == 2 {
            0x04
        } else {
            0x40
        }
    } else {
        if dy == 0 {
            0x08
        } else if dy == 1 {
            0x10
        } else if dy == 2 {
            0x20
        } else {
            0x80
        }
    }
}

/// The `k`-th sub-pixel (0 to 7, row by row) of terminal cell `(cx, cy)`.
pub open spec fn cell_pixel(v: Map<(int, int), Pixel>, cx: int, cy: int, k: int) -> Pixel {
    pixel_of(v, 2 * cx + k % 2, 4 * cy + k / 2)
}

/// The braille pattern of the first `k` sub-pixels of cell `(cx, cy)`:
/// the union of the bits of those that are lit.
pub open spec fn cell_bits(v: Map<(int, int), Pixel>, cx: int, cy: int, k: nat) -> u32
    decreases k,
{
    if k == 0 {
        0
    } else {
        let prev = cell_bits(v, cx, cy, (k - 1) as nat);
        if cell_pixel(v, cx, cy, k - 1).0 {
            prev | braille_dot((k - 1) % 2, (k - 1) / 2)
        } else {
            prev
        }
    }
}

/// Sums of red, green and blue over the lit sub-pixels among the first
/// `k` of cell `(cx, cy)`, and how many are lit.
pub open spec fn cell_sums(v: Map<(int, int), Pixel>, cx: int, cy: int, k: nat) -> (
    nat,
    nat,
    nat,
    nat,
)
    decreases k,
{
    if k == 0 {
        (0, 0, 0, 0)
    } else {
        let prev = cell_sums(v, cx, cy, (k - 1) as nat);
        let p = cell_pixel(v, cx, cy, k - 1);
        if p.0 {
            (prev.0 + p.1 as nat, prev.1 + p.2 as nat, prev.2 + p.3 as nat, prev.3 + 1)
        } else {
            prev
        }
    }
}

/// What terminal cell `(cx, cy)` of a canvas shows: nothing when none
/// of its eight sub-pixels is lit, else the braille character of its
/// pattern, coloured with the average colour of its lit sub-pixels.
pub open spec fn braille_glyph(v: Map<(int, int), Pixel>, cx: int, cy: int) -> Option<
    (char, u8, u8, u8),
> {
    let bits = cell_bits(v, cx, cy, 8);
    let sums = cell_sums(v, cx, cy, 8);
    if bits == 0 {
        None
    } else {
        Some(
            (
                (BRAILLE_BASE + bits) as char,
                (sums.0 / sums.3) as u8,
                (sums.1 / sums.3) as u8,
                (sums.2 / sums.3) as u8,
            ),
        )
    }
}

/// The bit patterns so far stay within one byte, and a lit sub-pixel
/// has been seen exactly when some bit is set.
proof fn lemma_cell_bits_bounds(v: Map<(int, int), Pixel>, cx: int, cy: int, k: nat)
    requires
        k <= 8,
    ensures
        cell_bits(v, cx, cy, k) <= 0xff,
        (cell_bits(v, cx, cy, k) == 0) == (cell_sums(v, cx, cy, k).3 == 0),
        cell_sums(v, cx, cy, k).0 <= 255 * cell_sums(v, cx, cy, k).3,
        cell_sums(v, cx, cy, k).1 <= 255 * cell_sums(v, cx, cy, k).3,
        cell_sums(v, cx, cy, k).2 <= 255 * cell_sums(v, cx, cy, k).3,
        cell_sums(v, cx, cy, k).3 <= k,
    decreases k,
{
    if k > 0 {
        lemma_cell_bits_bounds(v, cx, cy, (k - 1) as nat);
        let prev = cell_bits(v, cx, cy, (k - 1) as nat);
        let bit = braille_dot((k - 1) % 2, (k - 1) / 2);
        assert(prev <= 0xff && 1 <= bit <= 0xff ==> (prev | bit) <= 0xff && (prev | bit) != 0)
            by (bit_vector);
    }
}

/// Whether rendering, once it has reached terminal cell `(col, row)` of
/// the canvas (row by row), has drawn buffer position `p`: the canvas cell
/// at `p` less the offset `(ox, oy)` comes before `(col, row)`, shows a
/// glyph, and `p` lies within the first `aw` columns and `ah` rows.
pub open spec fn drawn_before(
    v: Map<(int, int), Pixel>,
    cw: int,
    ch: int,
    ox: int,
    oy: int,
    aw: int,
    ah: int,
    row: int,
    col: int,
    p: (u16, u16),
) -> bool {
    let cx = p.0 - ox;
    let cy = p.1 - oy;
    &&& 0 <= cx < cw
    &&& 0 <= cy < ch
    &&& cy < row || (cy == row && cx < col)
    &&& p.0 < aw
    &&& p.1 < ah
    &&& braille_glyph(v, cx, cy) is Some
}

/// The buffer cells `cells` after rendering has reached terminal cell
/// `(col, row)`: each drawn position takes the glyph's character as its
/// symbol and the glyph's colour as its foreground, and keeps its
/// background; every other cell is as it was.
pub open spec fn rendered_upto(
    cells: Map<(u16, u16), (Seq<char>, Option<(u8, u8, u8)>, Option<(u8, u8, u8)>)>,
    v: Map<(int, int), Pixel>,
    cw: int,
    ch: int,
    ox: int,
    oy: int,
    aw: int,
    ah: int,
    row: int,
    col: int,
) -> Map<(u16, u16), (Seq<char>, Option<(u8, u8, u8)>, Option<(u8, u8, u8)>)> {
    Map::new(
        |p: (u16, u16)| cells.contains_key(p) || drawn_before(v, cw, ch, ox, oy, aw, ah, row, col, p),
        |p: (u16, u16)|
            if drawn_before(v, cw, ch, ox, oy, aw, ah, row, col, p) {
                let g = braille_glyph(v, p.0 - ox, p.1 - oy)->0;
                (seq![g.0], Some((g.1, g.2, g.3)), cells[p].2)
            } else {
                cells[p]
            },
    )
}

/// The buffer cells `cells` after rendering a whole canvas of `cw` × `ch`
/// terminal cells with contents `v` at offset `(ox, oy)`, clipped to the
/// first `aw` columns and `ah` rows.
pub open spec fn rendered(
    cells: Map<(u16, u16), (Seq<char>, Option<(u8, u8, u8)>, Option<(u8, u8, u8)>)>,
    v: Map<(int, int), Pixel>,
    cw: int,
    ch: int,
    ox: int,
    oy: int,
    aw: int,
    ah: int,
) -> Map<(u16, u16), (Seq<char>, Option<(u8, u8, u8)>, Option<(u8, u8, u8)>)> {
    rendered_upto(cells, v, cw, ch, ox, oy, aw, ah, ch, 0)
}

/// One drawing call on a canvas: `dot`, `fat` or `thick` at `(x, y)`, with
/// the sub-pixel it paints.
pub enum Stroke {
    /// `Canvas::dot`: the single sub-pixel `(x, y)`.
    Dot { x: int, y: int, p: Pixel },
    /// `Canvas::fat`: the 2×2 block whose top-left corner is `(x, y)`.
    Fat { x: int, y: int, p: Pixel },
    /// `Canvas::thick`: the 3×3 block centred on `(x, y)`.
    Thick { x: int, y: int, p: Pixel },
}

/// The rectangle `[xlo, xhi) × [ylo, yhi)` a stroke paints, as
/// `(xlo, xhi, ylo, yhi)`.
pub open spec fn stroke_rect(s: Stroke) -> (int, int, int, int) {
    match s {
        Stroke::Dot { x, y, .. } => (x, x + 1, y, y + 1),
        Stroke::Fat { x, y, .. } => (x, x + 2, y, y + 2),
        Stroke::Thick { x, y, .. } => (x - 1, x + 2, y - 1, y + 2),
    }
}

/// The sub-pixel a stroke paints.
pub open spec fn stroke_pixel(s: Stroke) -> Pixel {
    match s {
        Stroke::Dot { p, .. } => p,
        Stroke::Fat { p, .. } => p,
        Stroke::Thick { p, .. } => p,
    }
}

/// Whether a stroke's rectangle holds `(x, y)`.
pub open spec fn stroke_covers(s: Stroke, x: int, y: int) -> bool {
    let r = stroke_rect(s);
    r.0 <= x < r.1 && r.2 <= y < r.3
}

/// Canvas contents `v` after one stroke: exactly what `dot`, `fat` and
/// `thick` state of themselves.
pub open spec fn apply_stroke(v: Map<(int, int), Pixel>, s: Stroke) -> Map<(int, int), Pixel> {
    let r = stroke_rect(s);
    painted(v, r.0, r.1, r.2, r.3, stroke_pixel(s))
}

/// Canvas contents `v` after the strokes `ss`, first to last.
pub open spec fn apply_strokes(v: Map<(int, int), Pixel>, ss: Seq<Stroke>) -> Map<
    (int, int),
    Pixel,
>
    decreases ss.len(),
{
    if ss.len() == 0 {
        v
    } else {
        apply_stroke(apply_strokes(v, ss.drop_last()), ss.last())
    }
}

/// The sub-pixel painted at `(x, y)` by the last of the strokes `ss` that
/// covers it, if any does.
pub open spec fn last_paint(ss: Seq<Stroke>, x: int, y: int) -> Option<Pixel>
    decreases ss.len(),
{
    if ss.len() == 0 {
        None
    } else if stroke_covers(ss.last(), x, y) {
        Some(stroke_pixel(ss.last()))
    } else {
        last_paint(ss.drop_last(), x, y)
    }
}

/// What `dot`, `fat` and `thick` state of the canvas is one stroke each.
pub proof fn law_calls_are_strokes(v: Map<(int, int), Pixel>, x: int, y: int, p: Pixel)
    ensures
        with_dot(v, x, y, p) == apply_stroke(v, Stroke::Dot { x, y, p }),
        painted(v, x, x + 2, y, y + 2, p) == apply_stroke(v, Stroke::Fat { x, y, p }),
        painted(v, x - 1, x + 2, y - 1, y + 2, p) == apply_stroke(v, Stroke::Thick { x, y, p }),
{
}

/// After any strokes, a read on the grid gives what the last stroke over
/// that position painted, or what was there before if none did; a read
/// off the grid gives an unlit sub-pixel. The grid itself never changes.
pub proof fn law_read_after_strokes(v: Map<(int, int), Pixel>, ss: Seq<Stroke>, x: int, y: int)
    ensures
        apply_strokes(v, ss).dom() == v.dom(),
        pixel_of(apply_strokes(v, ss), x, y) == if v.contains_key((x, y)) {
            match last_paint(ss, x, y) {
                Some(p) => p,
                None => v[(x, y)],
            }
        } else {
            unlit()
        },
    decreases ss.len(),
{
    if ss.len() > 0 {
        law_read_after_strokes(v, ss.drop_last(), x, y);
        assert(apply_strokes(v, ss).dom() =~= v.dom());
    }
}

/// On a fresh canvas of `w` × `h` sub-pixels, after any strokes, a read at
/// `(x, y)` gives what the last stroke over it painted, and an unlit
/// sub-pixel where no stroke did or off the grid.
pub proof fn law_fresh_canvas_history(
    v: Map<(int, int), Pixel>,
    w: int,
    h: int,
    ss: Seq<Stroke>,
    x: int,
    y: int,
)
    requires
        v.dom() == grid(w, h),
        forall|i: int, j: int| #[trigger] pixel_of(v, i, j) == unlit(),
    ensures
        pixel_of(apply_strokes(v, ss), x, y) == if 0 <= x < w && 0 <= y < h {
            match last_paint(ss, x, y) {
                Some(p) => p,
                None => unlit(),
            }
        } else {
            unlit()
        },
{
    law_read_after_strokes(v, ss, x, y);
    assert(pixel_of(v, x, y) == unlit());
}

/// Rendering draws every lit terminal cell of the canvas, in every row
/// and column, that lands inside the area: buffer position
/// `(ox + cx, oy + cy)` shows the cell's braille character in the cell's
/// average colour, and keeps its background.
pub proof fn law_render_shows_every_lit_cell(
    cells: Map<(u16, u16), (Seq<char>, Option<(u8, u8, u8)>, Option<(u8, u8, u8)>)>,
    v: Map<(int, int), Pixel>,
    cw: int,
    ch: int,
    ox: int,
    oy: int,
    aw: int,
    ah: int,
    cx: int,
    cy: int,
)
    requires
        0 <= ox,
        0 <= oy,
        aw <= u16::MAX,
        ah <= u16::MAX,
        0 <= cx < cw,
        0 <= cy < ch,
        ox + cx < aw,
        oy + cy < ah,
        braille_glyph(v, cx, cy) is Some,
    ensures
        ({
            let g = braille_glyph(v, cx, cy)->0;
            let p = ((ox + cx) as u16, (oy + cy) as u16);
            &&& rendered(cells, v, cw, ch, ox, oy, aw, ah).contains_key(p)
            &&& rendered(cells, v, cw, ch, ox, oy, aw, ah)[p] == (
                seq![g.0],
                Some((g.1, g.2, g.3)),
                cells[p].2,
            )
        }),
{
    let p = ((ox + cx) as u16, (oy + cy) as u16);
    assert(p.0 - ox == cx && p.1 - oy == cy);
}

/// Rendering leaves alone every buffer cell that is not the place of a lit
/// terminal cell of the canvas inside the area.
pub proof fn law_render_leaves_the_rest(
    cells: Map<(u16, u16), (Seq<char>, Option<(u8, u8, u8)>, Option<(u8, u8, u8)>)>,
    v: Map<(int, int), Pixel>,
    cw: int,
    ch: int,
    ox: int,
    oy: int,
    aw: int,
    ah: int,
    p: (u16, u16),
)
    requires
        cells.contains_key(p),
        !(ox <= p.0 < ox + cw && oy <= p.1 < oy + ch && p.0 < aw && p.1 < ah && braille_glyph(
            v,
            p.0 - ox,
            p.1 - oy,
        ) is Some),
    ensures
        rendered(cells, v, cw, ch, ox, oy, aw, ah).contains_key(p),
        rendered(cells, v, cw, ch, ox, oy, aw, ah)[p] == cells[p],
{
}

/// A read right after a dot on the grid gives the dot.
pub proof fn law_read_after_dot(v: Map<(int, int), Pixel>, x: int, y: int, p: Pixel)
    requires
        v.contains_key((x, y)),
    ensures
        pixel_of(with_dot(v, x, y, p), x, y) == p,
{
}

/// A dot changes no other position.
pub proof fn law_dot_is_local(
    v: Map<(int, int), Pixel>,
    x: int,
    y: int,
    p: Pixel,
    i: int,
    j: int,
)
    requires
        (i, j) != (x, y),
    ensures
        pixel_of(with_dot(v, x, y, p), i, j) == pixel_of(v, i, j),
{
}

/// A dot off the grid changes nothing.
pub proof fn law_dot_off_grid(v: Map<(int, int), Pixel>, x: int, y: int, p: Pixel)
    requires
        !v.contains_key((x, y)),
    ensures
        with_dot(v, x, y, p) == v,
{
    assert(with_dot(v, x, y, p) =~= v);
}

/// The later of two dots at one position wins.
pub proof fn law_dot_overwrites(v: Map<(int, int), Pixel>, x: int, y: int, p: Pixel, q: Pixel)
    ensures
        with_dot(with_dot(v, x, y, p), x, y, q) == with_dot(v, x, y, q),
{
    assert(with_dot(with_dot(v, x, y, p), x, y, q) =~= with_dot(v, x, y, q));
}

/// Dots at different positions can be drawn in either order.
pub proof fn law_dots_commute(
    v: Map<(int, int), Pixel>,
    x1: int,
    y1: int,
    p1: Pixel,
    x2: int,
    y2: int,
    p2: Pixel,
)
    requires
        (x1, y1) != (x2, y2),
    ensures
        with_dot(with_dot(v, x1, y1, p1), x2, y2, p2) == with_dot(
            with_dot(v, x2, y2, p2),
            x1,
            y1,
            p1,
        ),
{
    assert(with_dot(with_dot(v, x1, y1, p1), x2, y2, p2) =~= with_dot(
        with_dot(v, x2, y2, p2),
        x1,
        y1,
        p1,
    ));
}

/// A 2×2 block is the four dots `(x, y)`, `(x + 1, y)`, `(x, y + 1)`,
/// `(x + 1, y + 1)`.
pub proof fn law_fat_is_four_dots(v: Map<(int, int), Pixel>, x: int, y: int, p: Pixel)
    ensures
        painted(v, x, x + 2, y, y + 2, p) == with_dot(
            with_dot(with_dot(with_dot(v, x, y, p), x + 1, y, p), x, y + 1, p),
            x + 1,
            y + 1,
            p,
        ),
{
    assert(painted(v, x, x + 2, y, y + 2, p) =~= with_dot(
        with_dot(with_dot(with_dot(v, x, y, p), x + 1, y, p), x, y + 1, p),
        x + 1,
        y + 1,
        p,
    ));
}

/// A 3×3 block centred on `(x, y)` covers the 2×2 blocks at each of its
/// four corners' top-left positions: painting it after any of them gives
/// the 3×3 block alone.
pub proof fn law_thick_covers_fat(
    v: Map<(int, int), Pixel>,
    x: int,
    y: int,
    dx: int,
    dy: int,
    p: Pixel,
    q: Pixel,
)
    requires
        -1 <= dx <= 0,
        -1 <= dy <= 0,
    ensures
        painted(painted(v, x + dx, x + dx + 2, y + dy, y + dy + 2, q), x - 1, x + 2, y - 1, y + 2, p)
            == painted(v, x - 1, x + 2, y - 1, y + 2, p),
{
    assert(painted(
        painted(v, x + dx, x + dx + 2, y + dy, y + dy + 2, q),
        x - 1,
        x + 2,
        y - 1,
        y + 2,
        p,
    ) =~= painted(v, x - 1, x + 2, y - 1, y + 2, p));
}

/// A terminal cell shows a glyph exactly when one of its eight
/// sub-pixels is lit.
pub proof fn law_glyph_iff_lit(v: Map<(int, int), Pixel>, cx: int, cy: int)
    ensures
        braille_glyph(v, cx, cy) is Some <==> exists|k: int|
            0 <= k < 8 && (#[trigger] cell_pixel(v, cx, cy, k)).0,
{
    lemma_cell_bits_bounds(v, cx, cy, 8);
    lemma_count_iff_lit(v, cx, cy, 8);
}

proof fn lemma_count_iff_lit(v: Map<(int, int), Pixel>, cx: int, cy: int, k: nat)
    requires
        k <= 8,
    ensures
        cell_sums(v, cx, cy, k).3 > 0 <==> exists|i: int|
            0 <= i < k && (#[trigger] cell_pixel(v, cx, cy, i)).0,
    decreases k,
{
    if k > 0 {
        lemma_count_iff_lit(v, cx, cy, (k - 1) as nat);
        if cell_pixel(v, cx, cy, k - 1).0 {
            assert(exists|i: int| 0 <= i < k && (#[trigger] cell_pixel(v, cx, cy, i)).0);
        }
    }
}

/// A terminal cell with exactly one lit sub-pixel, in column `dx` and row
/// `dy`, shows the braille character of that dot alone, in the dot's
/// colour.
pub proof fn law_single_dot_glyph(
    v: Map<(int, int), Pixel>,
    cx: int,
    cy: int,
    dx: int,
    dy: int,
)
    requires
        0 <= dx < 2,
        0 <= dy < 4,
        pixel_of(v, 2 * cx + dx, 4 * cy + dy).0,
        forall|k: int|
            0 <= k < 8 && k != dy * 2 + dx ==> !(#[trigger] cell_pixel(v, cx, cy, k)).0,
    ensures
        braille_glyph(v, cx, cy) == Some(
            (
                (BRAILLE_BASE + braille_dot(dx, dy)) as char,
                pixel_of(v, 2 * cx + dx, 4 * cy + dy).1,
                pixel_of(v, 2 * cx + dx, 4 * cy + dy).2,
                pixel_of(v, 2 * cx + dx, 4 * cy + dy).3,
            ),
        ),
{
    let n = dy * 2 + dx;
    assert(n % 2 == dx && n / 2 == dy);
    assert(cell_pixel(v, cx, cy, n) == pixel_of(v, 2 * cx + dx, 4 * cy + dy));
    lemma_single_dot_prefix(v, cx, cy, n, 8);
    let px = pixel_of(v, 2 * cx + dx, 4 * cy + dy);
    assert(cell_bits(v, cx, cy, 8) == braille_dot(dx, dy));
    assert(braille_dot(dx, dy) != 0);
    assert((px.1 as nat) / 1 == px.1 as nat);
    assert((px.2 as nat) / 1 == px.2 as nat);
    assert((px.3 as nat) / 1 == px.3 as nat);
}

proof fn lemma_single_dot_prefix(v: Map<(int, int), Pixel>, cx: int, cy: int, n: int, k: nat)
    requires
        0 <= n < 8,
        k <= 8,
        cell_pixel(v, cx, cy, n).0,
        forall|i: int| 0 <= i < 8 && i != n ==> !(#[trigger] cell_pixel(v, cx, cy, i)).0,
    ensures
        k <= n ==> cell_bits(v, cx, cy, k) == 0 && cell_sums(v, cx, cy, k) == (0nat, 0nat, 0nat, 0nat),
        k > n ==> cell_bits(v, cx, cy, k) == braille_dot(n % 2, n / 2) && cell_sums(v, cx, cy, k)
            == (
            cell_pixel(v, cx, cy, n).1 as nat,
            cell_pixel(v, cx, cy, n).2 as nat,
            cell_pixel(v, cx, cy, n).3 as nat,
            1nat,
        ),
    decreases k,
{
    if k > 0 {
        lemma_single_dot_prefix(v, cx, cy, n, (k - 1) as nat);
        if k - 1 == n {
            let bit = braille_dot(n % 2, n / 2);
            assert(0u32 | bit == bit) by (bit_vector);
        } else {
            assert(!cell_pixel(v, cx, cy, k - 1).0);
        }
    }
}

/// A canvas with no lit sub-pixel leaves every buffer cell as it was.
pub proof fn law_render_blank(
    cells: Map<(u16, u16), (Seq<char>, Option<(u8, u8, u8)>, Option<(u8, u8, u8)>)>,
    v: Map<(int, int), Pixel>,
    cw: int,
    ch: int,
    ox: int,
    oy: int,
    aw: int,
    ah: int,
)
    requires
        forall|x: int, y: int| !(#[trigger] pixel_of(v, x, y)).0,
    ensures
        rendered(cells, v, cw, ch, ox, oy, aw, ah) == cells,
{
    assert forall|cx: int, cy: int| !(braille_glyph(v, cx, cy) is Some) by {
        law_glyph_iff_lit(v, cx, cy);
        assert forall|k: int| 0 <= k < 8 implies !(#[trigger] cell_pixel(v, cx, cy, k)).0 by {
            assert(!pixel_of(v, 2 * cx + k % 2, 4 * cy + k / 2).0);
        }
    }
    assert(rendered(cells, v, cw, ch, ox, oy, aw, ah) =~= cells);
}

/// Whether a canvas of `cw` × `ch` terminal cells with contents `v` can be
/// rendered at offset `(ox, oy)`, clipped to `aw` × `ah`, into a buffer
/// holding `cells`: a canvas with cells leaves room for the offset in
/// 32-bit positions, and every position drawn is one the buffer holds.
pub open spec fn can_render(
    cells: Map<(u16, u16), (Seq<char>, Option<(u8, u8, u8)>, Option<(u8, u8, u8)>)>,
    v: Map<(int, int), Pixel>,
    cw: int,
    ch: int,
    ox: int,
    oy: int,
    aw: int,
    ah: int,
) -> bool {
    &&& ch > 0 ==> cw + u16::MAX <= i32::MAX
    &&& cw > 0 ==> ch + u16::MAX <= i32::MAX
    &&& forall|cx: int, cy: int|
        0 <= cx < cw && 0 <= cy < ch && ox + cx < aw && oy + cy < ah && #[trigger] braille_glyph(
            v,
            cx,
            cy,
        ) is Some ==> cells.contains_key(((ox + cx) as u16, (oy + cy) as u16))
}

/// A pixel buffer that renders to braille characters.
pub struct Canvas {
    /// Sub-pixel dimensions (2× char width, 4× char height).
    pub w: usize,
    pub h: usize,
    cw: usize,
    px: Vec<Pixel>,
}

impl View for Canvas {
    type V = Map<(int, int), Pixel>;

    /// The sub-pixels, by position `(x, y)`.
    closed spec fn view(&self) -> Map<(int, int), Pixel> {
        Map::new(
            |q: (int, int)| 0 <= q.0 < self.w && 0 <= q.1 < self.h,
            |q: (int, int)| self.px@[q.1 * self.w + q.0],
        )
    }
}

/// The row-major index of a grid position lies inside the store.
proof fn lemma_index_in_range(w: int, h: int, x: int, y: int)
    requires
        0 <= x < w,
        0 <= y < h,
    ensures
        0 <= y * w <= y * w + x < w * h,
{
    assert(0 <= y * w <= y * w + x < w * h) by (nonlinear_arith)
        requires
            0 <= x < w,
            0 <= y < h,
    ;
}

/// For positions on a grid of width `w`, the row-major index is one to one.
proof fn lemma_index_unique(w: int, x: int, y: int, i: int, j: int)
    requires
        0 <= x < w,
        0 <= i < w,
        (x, y) != (i, j),
    ensures
        y * w + x != j * w + i,
{
    if y < j {
        assert(y * w + x < j * w + i) by (nonlinear_arith)
            requires
                0 <= x < w,
                y < j,
                0 <= i,
        ;
    } else if j < y {
        assert(j * w + i < y * w + x) by (nonlinear_arith)
            requires
                0 <= i < w,
                j < y,
                0 <= x,
        ;
    }
}

/// An average of `n` values of at most 255 is at most 255.
proof fn lemma_average_fits(total: nat, n: nat)
    requires
        n > 0,
        total <= 255 * n,
    ensures
        total / n <= 255,
{
    assert(total / n <= 255) by (nonlinear_arith)
        requires
            n > 0,
            total <= 255 * n,
    ;
}

/// Bit of the braille pattern for sub-pixel column `dx`, row `dy`.
fn braille_bit(dx: usize, dy: usize) -> (b: u32)
    requires
        dx < 2,
        dy < 4,
    ensures
        b == braille_dot(dx as int, dy as int),
{
    if dx == 0 {
        if dy == 0 {
            0x01
        } else if dy == 1 {
            0x02
        } else if dy == 2 {
            0x04
        } else {
            0x40
        }
    } else {
        if dy == 0 {
            0x08
        } else if dy == 1 {
            0x10
        } else if dy == 2 {
            0x20
        } else {
            0x80
        }
    }
}

/// `char::from_u32`: the character whose code point is `v`, or `None`
/// when `v` is not a Unicode scalar value (a surrogate, or above
/// U+10FFFF), as the standard library documents it.
#[verifier::external_body]
fn char_from_scalar(v: u32) -> (c: Option<char>)
    ensures
        c == (if is_scalar(v) {
            Some(v as char)
        } else {
            None::<char>
        }),
{
    char::from_u32(v)
}

impl Canvas {
    /// Internal consistency: the pixel store holds `w × h` entries and
    /// the heights and widths are those of whole terminal cells.
    pub closed spec fn inv(&self) -> bool {
        &&& self.w == 2 * self.cw
        &&& self.h % 4 == 0
        &&& self.px@.len() == self.w * self.h
        &&& self.w * self.h <= usize::MAX
    }

    /// A canvas is well formed: its contents cover exactly its grid.
    pub closed spec fn wf(&self) -> bool {
        &&& self.inv()
        &&& self@.dom() == grid(self.w as int, self.h as int)
    }

    /// Number of terminal cells across.
    pub closed spec fn cells_wide(&self) -> nat {
        self.cw as nat
    }

    /// Width in sub-pixels (the field `w`).
    pub closed spec fn width(&self) -> nat {
        self.w as nat
    }

    /// Height in sub-pixels (the field `h`).
    pub closed spec fn height(&self) -> nat {
        self.h as nat
    }

    /// The contents of a well-formed canvas cover exactly its grid.
    pub proof fn lemma_domain(&self)
        requires
            self.wf(),
        ensures
            self@.dom() == grid(self.width() as int, self.height() as int),
            self.width() == 2 * self.cells_wide(),
            self.height() == 4 * self.cells_high(),
    {
    }

    proof fn lemma_inv_wf(&self)
        requires
            self.inv(),
        ensures
            self.wf(),
            self.w == 2 * self.cells_wide(),
    {
        assert(self@.dom() =~= grid(self.w as int, self.h as int));
    }

    /// Create a canvas for the given terminal cell dimensions.
    pub fn new(cw: usize, ch: usize) -> (c: Self)
        requires
            cw * 2 <= usize::MAX,
            ch * 4 <= usize::MAX,
            cw * 2 * ch * 4 <= usize::MAX,
        ensures
            c.wf(),
            c.width() == cw * 2,
            c.height() == ch * 4,
            c.cells_wide() == cw,
            c.cells_high() == ch,
            forall|x: int, y: int| #[trigger] pixel_of(c@, x, y) == unlit(),
    {
        assert(0 <= cw * 2 * ch <= cw * 2 * ch * 4) by (nonlinear_arith);
        let n: usize = cw * 2 * ch * 4;
        let mut px: Vec<Pixel> = Vec::new();
        while px.len() < n
            invariant
                px.len() <= n,
                forall|i: int| 0 <= i < px.len() ==> px@[i] == unlit(),
            decreases n - px.len(),
        {
            px.push((false, 0, 0, 0));
        }
        let c = Canvas { w: cw * 2, h: ch * 4, cw, px };
        proof {
            assert(c.px@.len() == c.w * c.h && c.w * c.h <= usize::MAX) by (nonlinear_arith)
                requires
                    c.px@.len() == cw * 2 * ch * 4,
                    cw * 2 * ch * 4 <= usize::MAX,
                    c.w == cw * 2,
                    c.h == ch * 4,
            ;
            c.lemma_inv_wf();
            assert forall|x: int, y: int| #[trigger] pixel_of(c@, x, y) == unlit() by {
                if c@.contains_key((x, y)) {
                    lemma_index_in_range(c.w as int, c.h as int, x, y);
                }
            }
        }
        c
    }

    /// Set a single sub-pixel.
    pub fn dot(&mut self, x: i32, y: i32, r: u8, g: u8, b: u8)
        requires
            old(self).wf(),
        ensures
            final(self).wf(),
            final(self).width() == old(self).width(),
            final(self).height() == old(self).height(),
            final(self).cells_wide() == old(self).cells_wide(),
            final(self).cells_high() == old(self).cells_high(),
            final(self)@ == with_dot(old(self)@, x as int, y as int, (true, r, g, b)),
    {
        if x >= 0 && y >= 0 && (x as usize) < self.w && (y as usize) < self.h {
            let ghost before = *self;
            proof {
                lemma_index_in_range(self.w as int, self.h as int, x as int, y as int);
            }
            let idx: usize = y as usize * self.w + x as usize;
            self.px.set(idx, (true, r, g, b));
            proof {
                self.lemma_inv_wf();
                assert forall|q: (int, int)| #[trigger] self@.contains_key(q) implies self@[q]
                    == with_dot(before@, x as int, y as int, (true, r, g, b))[q] by {
                    if q != (x as int, y as int) {
                        lemma_index_in_range(self.w as int, self.h as int, q.0, q.1);
                        lemma_index_unique(
                            self.w as int,
                            x as int,
                            y as int,
                            q.0,
                            q.1,
                        );
                    }
                }
                assert(self@ =~= with_dot(before@, x as int, y as int, (true, r, g, b)));
            }
        } else {
            assert(self@ =~= with_dot(self@, x as int, y as int, (true, r, g, b)));
        }
    }

    /// Set every sub-pixel of the `nx` × `ny` rectangle whose top-left
    /// corner is `(x0, y0)`, row by row; those off the grid are left alone.
    fn block(&mut self, x0: i32, y0: i32, nx: i32, ny: i32, r: u8, g: u8, b: u8)
        requires
            old(self).wf(),
            0 <= nx,
            0 <= ny,
            x0 + nx - 1 <= i32::MAX,
            y0 + ny - 1 <= i32::MAX,
        ensures
            final(self).wf(),
            final(self).width() == old(self).width(),
            final(self).height() == old(self).height(),
            final(self).cells_wide() == old(self).cells_wide(),
            final(self).cells_high() == old(self).cells_high(),
            final(self)@ == painted(
                old(self)@,
                x0 as int,
                x0 + nx,
                y0 as int,
                y0 + ny,
                (true, r, g, b),
            ),
    {
        let ghost start = self@;
        let ghost p: Pixel = (true, r, g, b);
        let mut dy: i32 = 0;
        while dy < ny
            invariant
                self.wf(),
                self.width() == old(self).width(),
                self.height() == old(self).height(),
                self.cells_wide() == old(self).cells_wide(),
                start == old(self)@,
                p == (true, r, g, b),
                0 <= nx,
                0 <= dy <= ny,
                x0 + nx - 1 <= i32::MAX,
                y0 + ny - 1 <= i32::MAX,
                self@ == painted(start, x0 as int, x0 + nx, y0 as int, y0 + dy, p),
            decreases ny - dy,
        {
            let ghost row_start = self@;
            let mut dx: i32 = 0;
            while dx < nx
                invariant
                    self.wf(),
                    self.width() == old(self).width(),
                    self.height() == old(self).height(),
                    self.cells_wide() == old(self).cells_wide(),
                    p == (true, r, g, b),
                    start == old(self)@,
                    row_start == painted(start, x0 as int, x0 + nx, y0 as int, y0 + dy, p),
                    0 <= dx <= nx,
                    0 <= dy < ny,
                    x0 + nx - 1 <= i32::MAX,
                    y0 + ny - 1 <= i32::MAX,
                    self@ == painted(row_start, x0 as int, x0 + dx, y0 + dy, y0 + dy + 1, p),
                decreases nx - dx,
            {
                self.dot(x0 + dx, y0 + dy, r, g, b);
                dx = dx + 1;
                assert(self@ =~= painted(row_start, x0 as int, x0 + dx, y0 + dy, y0 + dy + 1, p));
            }
            dy = dy + 1;
            assert(self@ =~= painted(start, x0 as int, x0 + nx, y0 as int, y0 + dy, p));
        }
    }

    /// 2×2 sub-pixel block.
    pub fn fat(&mut self, x: i32, y: i32, r: u8, g: u8, b: u8)
        requires
            old(self).wf(),
            x + 1 <= i32::MAX,
            y + 1 <= i32::MAX,
        ensures
            final(self).wf(),
            final(self).width() == old(self).width(),
            final(self).height() == old(self).height(),
            final(self).cells_wide() == old(self).cells_wide(),
            final(self).cells_high() == old(self).cells_high(),
            final(self)@ == painted(old(self)@, x as int, x + 2, y as int, y + 2, (true, r, g, b)),
    {
        self.block(x, y, 2, 2, r, g, b);
    }

    /// 3×3 sub-pixel block centred on `(x, y)`.
    pub fn thick(&mut self, x: i32, y: i32, r: u8, g: u8, b: u8)
        requires
            old(self).wf(),
            i32::MIN <= x - 1,
            x + 1 <= i32::MAX,
            i32::MIN <= y - 1,
            y + 1 <= i32::MAX,
        ensures
            final(self).wf(),
            final(self).width() == old(self).width(),
            final(self).height() == old(self).height(),
            final(self).cells_wide() == old(self).cells_wide(),
            final(self).cells_high() == old(self).cells_high(),
            final(self)@ == painted(old(self)@, x - 1, x + 2, y - 1, y + 2, (true, r, g, b)),
    {
        self.block(x - 1, y - 1, 3, 3, r, g, b);
    }

    /// Width in sub-pixels.
    pub fn pixel_width(&self) -> (w: usize)
        ensures
            w == self.width(),
    {
        self.w
    }

    /// Height in sub-pixels.
    pub fn pixel_height(&self) -> (h: usize)
        ensures
            h == self.height(),
    {
        self.h
    }

    /// Number of terminal cells down (the height in sub-pixels over 4).
    pub closed spec fn cells_high(&self) -> nat {
        (self.h / 4) as nat
    }

    /// What terminal cell `(cx, cy)` shows (see [`braille_glyph`]).
    pub fn braille_cell(&self, cx: usize, cy: usize) -> (g: Option<(char, u8, u8, u8)>)
        requires
            self.wf(),
            cx < self.cells_wide(),
            cy < self.cells_high(),
        ensures
            g == braille_glyph(self@, cx as int, cy as int),
    {
        let mut bits: u32 = 0;
        let mut tr: u32 = 0;
        let mut tg: u32 = 0;
        let mut tb: u32 = 0;
        let mut n: u32 = 0;
        let mut dy: usize = 0;
        while dy < 4
            invariant
                self.wf(),
                cx < self.cells_wide(),
                cy < self.cells_high(),
                dy <= 4,
                bits == cell_bits(self@, cx as int, cy as int, (dy * 2) as nat),
                (tr as nat, tg as nat, tb as nat, n as nat) == cell_sums(
                    self@,
                    cx as int,
                    cy as int,
                    (dy * 2) as nat,
                ),
            decreases 4 - dy,
        {
            let mut dx: usize = 0;
            while dx < 2
                invariant
                    self.wf(),
                    cx < self.cells_wide(),
                    cy < self.cells_high(),
                    dy < 4,
                    dx <= 2,
                    bits == cell_bits(self@, cx as int, cy as int, (dy * 2 + dx) as nat),
                    (tr as nat, tg as nat, tb as nat, n as nat) == cell_sums(
                        self@,
                        cx as int,
                        cy as int,
                        (dy * 2 + dx) as nat,
                    ),
                decreases 2 - dx,
            {
                let ghost k: int = (dy * 2 + dx) as int;
                proof {
                    lemma_cell_bits_bounds(self@, cx as int, cy as int, k as nat);
                    assert(k % 2 == dx as int && k / 2 == dy as int);
                    assert(cy * 4 + dy < self.h && cx * 2 + dx < self.w);
                    lemma_index_in_range(
                        self.w as int,
                        self.h as int,
                        (cx * 2 + dx) as int,
                        (cy * 4 + dy) as int,
                    );
                }
                let (on, r, g, b) = self.px[(cy * 4 + dy) * self.w + cx * 2 + dx];
                assert((on, r, g, b) == cell_pixel(self@, cx as int, cy as int, k));
                if on {
                    bits = bits | braille_bit(dx, dy);
                    tr = tr + r as u32;
                    tg = tg + g as u32;
                    tb = tb + b as u32;
                    n = n + 1;
                }
                dx = dx + 1;
            }
            dy = dy + 1;
        }
        proof {
            lemma_cell_bits_bounds(self@, cx as int, cy as int, 8);
        }
        if bits == 0 {
            return None;
        }
        proof {
            lemma_average_fits(tr as nat, n as nat);
            lemma_average_fits(tg as nat, n as nat);
            lemma_average_fits(tb as nat, n as nat);
        }
        let ch = match char_from_scalar(BRAILLE_BASE + bits) {
            Some(c) => c,
            None => ' ',
        };
        Some((ch, (tr / n) as u8, (tg / n) as u8, (tb / n) as u8))
    }

    /// Render the canvas as [`Self::render`] does when it can (see
    /// [`can_render`]), and say whether it did; when it cannot, the buffer
    /// is left as it was.
    pub fn try_render(&self, buf: &mut Buffer, ox: u16, oy: u16, area: Area) -> (drawn: bool)
        requires
            self.wf(),
        ensures
            drawn == can_render(
                buffer_cells(*old(buf)),
                self@,
                self.cells_wide() as int,
                self.cells_high() as int,
                ox as int,
                oy as int,
                area.width as int,
                area.height as int,
            ),
            buffer_cells(*final(buf)) == if drawn {
                rendered(
                    buffer_cells(*old(buf)),
                    self@,
                    self.cells_wide() as int,
                    self.cells_high() as int,
                    ox as int,
                    oy as int,
                    area.width as int,
                    area.height as int,
                )
            } else {
                buffer_cells(*old(buf))
            },
    {
        let ghost cells = buffer_cells(*buf);
        let ghost cwi = self.cells_wide() as int;
        let ghost chi = self.cells_high() as int;
        let ch = self.h / 4;
        if (ch > 0 && self.cw > 0x7fff_0000) || (self.cw > 0 && ch > 0x7fff_0000) {
            return false;
        }
        let mut cy: usize = 0;
        while cy < ch
            invariant
                self.wf(),
                ch == self.cells_high(),
                cwi == self.cells_wide(),
                chi == ch,
                cy <= ch,
                cells == buffer_cells(*buf),
                forall|cx: int, cy2: int|
                    0 <= cx < cwi && 0 <= cy2 < cy && ox + cx < area.width && oy + cy2
                        < area.height && #[trigger] braille_glyph(self@, cx, cy2) is Some
                        ==> cells.contains_key(((ox + cx) as u16, (oy + cy2) as u16)),
            decreases ch - cy,
        {
            let mut cx: usize = 0;
            while cx < self.cw
                invariant
                    self.wf(),
                    ch == self.cells_high(),
                    cwi == self.cells_wide(),
                    chi == ch,
                    cy < ch,
                    cx <= self.cw,
                    cells == buffer_cells(*buf),
                    forall|cx2: int, cy2: int|
                        0 <= cx2 < cwi && 0 <= cy2 < chi && (cy2 < cy || (cy2 == cy && cx2 < cx))
                            && ox + cx2 < area.width && oy + cy2 < area.height
                            && #[trigger] braille_glyph(self@, cx2, cy2) is Some
                            ==> cells.contains_key(((ox + cx2) as u16, (oy + cy2) as u16)),
                decreases self.cw - cx,
            {
                let x: usize = ox as usize + cx;
                let y: usize = oy as usize + cy;
                if x < area.width as usize && y < area.height as usize {
                    if self.braille_cell(cx, cy).is_some() {
                        if !buffer_holds(buf, x as u16, y as u16) {
                            assert(braille_glyph(self@, cx as int, cy as int) is Some);
                            return false;
                        }
                    }
                }
                cx = cx + 1;
            }
            cy = cy + 1;
        }
        self.render(buf, ox, oy, area);
        true
    }

    /// Render the canvas into a terminal buffer using braille characters.
    ///
    /// Terminal cell `(cx, cy)` of the canvas goes to buffer position
    /// `(ox + cx, oy + cy)`; cells with no lit sub-pixel, and positions
    /// outside the first `area.width` columns and `area.height` rows, are
    /// skipped (only the size of `area` matters). Positions are worked out
    /// in 32-bit integers, so a canvas with cells must leave room in them
    /// for an offset, and every position drawn must be one the buffer
    /// holds.
    pub fn render(&self, buf: &mut Buffer, ox: u16, oy: u16, area: Area)
        requires
            self.wf(),
            can_render(
                buffer_cells(*old(buf)),
                self@,
                self.cells_wide() as int,
                self.cells_high() as int,
                ox as int,
                oy as int,
                area.width as int,
                area.height as int,
            ),
        ensures
            buffer_cells(*final(buf)) == rendered(
                buffer_cells(*old(buf)),
                self@,
                self.cells_wide() as int,
                self.cells_high() as int,
                ox as int,
                oy as int,
                area.width as int,
                area.height as int,
            ),
    {
        let ghost start = buffer_cells(*buf);
        let ghost cw = self.cells_wide() as int;
        let ghost chi = self.cells_high() as int;
        let ch = self.h / 4;
        let mut cy: usize = 0;
        assert(start =~= rendered_upto(
            start, self@, cw, chi, ox as int, oy as int, area.width as int, area.height as int, 0, 0,
        ));
        while cy < ch
            invariant
                self.wf(),
                ch == self.cells_high(),
                cw == self.cells_wide(),
                chi == ch,
                cy <= ch,
                self.cells_high() > 0 ==> self.cells_wide() + u16::MAX <= i32::MAX,
                self.cells_wide() > 0 ==> self.cells_high() + u16::MAX <= i32::MAX,
                start == buffer_cells(*old(buf)),
                forall|cx: int, cy: int|
                    0 <= cx < self.cells_wide() && 0 <= cy < self.cells_high() && ox + cx
                        < area.width && oy + cy < area.height && #[trigger] braille_glyph(
                        self@,
                        cx,
                        cy,
                    ) is Some ==> buffer_cells(*old(buf)).contains_key(((ox + cx) as u16, (oy + cy) as u16)),
                buffer_cells(*buf) == rendered_upto(
                    start,
                    self@,
                    cw,
                    chi,
                    ox as int,
                    oy as int,
                    area.width as int,
                    area.height as int,
                    cy as int,
                    0,
                ),
            decreases ch - cy,
        {
            let mut cx: usize = 0;
            while cx < self.cw
                invariant
                    self.wf(),
                    ch == self.cells_high(),
                    cw == self.cells_wide(),
                    chi == ch,
                    cy < ch,
                    cx <= self.cw,
                    self.cells_high() > 0 ==> self.cells_wide() + u16::MAX <= i32::MAX,
                    self.cells_wide() > 0 ==> self.cells_high() + u16::MAX <= i32::MAX,
                    start == buffer_cells(*old(buf)),
                    forall|cx: int, cy: int|
                        0 <= cx < self.cells_wide() && 0 <= cy < self.cells_high() && ox + cx
                            < area.width && oy + cy < area.height && #[trigger] braille_glyph(
                            self@,
                            cx,
                            cy,
                        ) is Some ==> buffer_cells(*old(buf)).contains_key(((ox + cx) as u16, (oy + cy) as u16)),
                    buffer_cells(*buf) == rendered_upto(
                        start,
                        self@,
                        cw,
                        chi,
                        ox as int,
                        oy as int,
                        area.width as int,
                        area.height as int,
                        cy as int,
                        cx as int,
                    ),
                decreases self.cw - cx,
            {
                let ghost before = buffer_cells(*buf);
                let glyph = self.braille_cell(cx, cy);
                match glyph {
                    None => {},
                    Some((c, r, g, b)) => {
                        let bx: i32 = ox as i32 + cx as i32;
                        let by: i32 = oy as i32 + cy as i32;
                        if !(bx < 0 || by < 0 || bx >= area.width as i32 || by
                            >= area.height as i32) {
                            let (x, y) = (bx as u16, by as u16);
                            assert(x == ox + cx && y == oy + cy);
                            set_cell_char(buf, x, y, c);
                            set_cell_fg(buf, x, y, r, g, b);
                            set_cell_default_style(buf, x, y);
                            assert(buffer_cells(*buf) == before.insert(
                                (x, y),
                                (seq![c], Some((r, g, b)), before[(x, y)].2),
                            ));
                            assert(!drawn_before(
                                self@, cw, chi, ox as int, oy as int, area.width as int,
                                area.height as int, cy as int, cx as int, (x, y),
                            ));
                            assert(drawn_before(
                                self@, cw, chi, ox as int, oy as int, area.width as int,
                                area.height as int, cy as int, cx + 1, (x, y),
                            ));
                        } else {
                            assert(ox + cx >= area.width || oy + cy >= area.height);
                        }
                    },
                }
                cx = cx + 1;
                assert(buffer_cells(*buf) =~= rendered_upto(
                    start,
                    self@,
                    cw,
                    chi,
                    ox as int,
                    oy as int,
                    area.width as int,
                    area.height as int,
                    cy as int,
                    cx as int,
                ));
            }
            cy = cy + 1;
            assert(buffer_cells(*buf) =~= rendered_upto(
                start,
                self@,
                cw,
                chi,
                ox as int,
                oy as int,
                area.width as int,
                area.height as int,
                cy as int,
                0,
            ));
        }
    }

    /// Read a sub-pixel; positions off the grid read as unlit.
    pub fn get(&self, x: usize, y: usize) -> (p: Pixel)
        requires
            self.wf(),
        ensures
            p == pixel_of(self@, x as int, y as int),
    {
        if x < self.w && y < self.h {
            proof {
                lemma_index_in_range(self.w as int, self.h as int, x as int, y as int);
            }
            self.px[y * self.w + x]
        } else {
            (false, 0, 0, 0)
        }
    }
}

} // verus!
