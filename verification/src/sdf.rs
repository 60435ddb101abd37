//! Character ramp for shading procedural pictures by brightness.

use vstd::prelude::*;

verus! {

/// The character for brightness level `level` (tenths of full
/// brightness): denser characters for brighter levels, `@` from 8 up.
pub open spec fn density_glyph(level: u32) -> char {
    if level == 0 {
        '·'
    } else if level == 1 {
        '+'
    } else if level == 2 {
        '='
    } else if level == 3 {
        '*'
    } else if level <= 5 {
        '%'
    } else if level <= 7 {
        '$'
    } else {
        '@'
    }
}

/// The character for brightness level `level` (tenths of full
/// brightness, as the integer part of ten times the brightness).
pub fn density_char(level: u32) -> (c: char)
    ensures
        c == density_glyph(level),
{
    match level {
        0 => '·',
        1 => '+',
        2 => '=',
        3 => '*',
        4 => '%',
        5 => '%',
        6 => '$',
        7 => '$',
        8 => '@',
        9 => '@',
        _ => '@',
    }
}

} // verus!
