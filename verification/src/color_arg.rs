//! The `--bg <hex>` command-line option: a fixed water colour.
//!
//! The value is `RRGGBB`, with or without a leading `#`, in either case.
//! The option is written `--bg <hex>` or `--bg=<hex>`; the first of them
//! in the argument list decides, and a value that is not such a colour
//! gives no colour at all.

use vstd::prelude::*;
use crate::text::chars_of;

verus! {

/// Whether `c` is an ASCII hexadecimal digit, in either case.
pub open spec fn is_hex_digit(c: char) -> bool {
    ||| ('0' as u32) <= (c as u32) <= ('9' as u32)
    ||| ('a' as u32) <= (c as u32) <= ('f' as u32)
    ||| ('A' as u32) <= (c as u32) <= ('F' as u32)
}

/// The value of the hexadecimal digit `c`.
pub open spec fn hex_value(c: char) -> int {
    if ('0' as u32) <= (c as u32) <= ('9' as u32) {
        c as u32 - '0' as u32
    } else if ('a' as u32) <= (c as u32) <= ('f' as u32) {
        c as u32 - 'a' as u32 + 10
    } else {
        c as u32 - 'A' as u32 + 10
    }
}

/// The byte written by the two hexadecimal digits `hi`, `lo`.
pub open spec fn hex_byte(hi: char, lo: char) -> u8 {
    (hex_value(hi) * 16 + hex_value(lo)) as u8
}

/// `s` without one leading `#`, if it has one.
pub open spec fn without_hash(s: Seq<char>) -> Seq<char> {
    if s.len() > 0 && s[0] == '#' {
        s.drop_first()
    } else {
        s
    }
}

/// The colour that `s` writes as `RRGGBB` or `#RRGGBB`, if it writes one.
pub open spec fn hex_rgb(s: Seq<char>) -> Option<(u8, u8, u8)> {
    let t = without_hash(s);
    if t.len() == 6 && forall|i: int| 0 <= i < 6 ==> #[trigger] is_hex_digit(t[i]) {
        Some((hex_byte(t[0], t[1]), hex_byte(t[2], t[3]), hex_byte(t[4], t[5])))
    } else {
        None
    }
}

/// The option name, written alone: `--bg`.
pub open spec fn bg_flag() -> Seq<char> {
    seq!['-', '-', 'b', 'g']
}

/// The option name with its value attached: `--bg=`.
pub open spec fn bg_assign() -> Seq<char> {
    seq!['-', '-', 'b', 'g', '=']
}

/// The colour that the argument list `args` asks for with `--bg`: the
/// first argument that starts with `--bg=` or equals `--bg` decides, by
/// the text after `=` or by the next argument; `None` when there is no
/// such argument, no next argument, or no colour in the value.
pub open spec fn bg_arg(args: Seq<Seq<char>>) -> Option<(u8, u8, u8)>
    decreases args.len(),
{
    if args.len() == 0 {
        None
    } else if bg_assign().is_prefix_of(args[0]) {
        hex_rgb(args[0].skip(5))
    } else if args[0] == bg_flag() {
        if args.len() >= 2 {
            hex_rgb(args[1])
        } else {
            None
        }
    } else {
        bg_arg(args.drop_first())
    }
}

/// The texts of a list of strings.
pub open spec fn texts(args: Seq<String>) -> Seq<Seq<char>> {
    args.map_values(|a: String| a@)
}

/// The lowercase hexadecimal digit for `d` (0 to 15).
pub open spec fn lower_hex_digit(d: int) -> char {
    if d == 0 { '0' } else if d == 1 { '1' } else if d == 2 { '2' } else if d == 3 { '3' }
    else if d == 4 { '4' } else if d == 5 { '5' } else if d == 6 { '6' } else if d == 7 { '7' }
    else if d == 8 { '8' } else if d == 9 { '9' } else if d == 10 { 'a' } else if d == 11 { 'b' }
    else if d == 12 { 'c' } else if d == 13 { 'd' } else if d == 14 { 'e' } else { 'f' }
}

/// The uppercase hexadecimal digit for `d` (0 to 15).
pub open spec fn upper_hex_digit(d: int) -> char {
    if d == 0 { '0' } else if d == 1 { '1' } else if d == 2 { '2' } else if d == 3 { '3' }
    else if d == 4 { '4' } else if d == 5 { '5' } else if d == 6 { '6' } else if d == 7 { '7' }
    else if d == 8 { '8' } else if d == 9 { '9' } else if d == 10 { 'A' } else if d == 11 { 'B' }
    else if d == 12 { 'C' } else if d == 13 { 'D' } else if d == 14 { 'E' } else { 'F' }
}

/// `RRGGBB` for a colour, with lowercase or uppercase digits.
pub open spec fn hex_text(r: u8, g: u8, b: u8, upper: bool) -> Seq<char> {
    let d = |v: int| if upper { upper_hex_digit(v) } else { lower_hex_digit(v) };
    seq![
        d(r as int / 16),
        d(r as int % 16),
        d(g as int / 16),
        d(g as int % 16),
        d(b as int / 16),
        d(b as int % 16),
    ]
}

/// Whether no argument of `args` is the option, in either form.
pub open spec fn no_bg_option(args: Seq<Seq<char>>) -> bool {
    forall|i: int| 0 <= i < args.len() ==> !bg_assign().is_prefix_of(#[trigger] args[i])
        && args[i] != bg_flag()
}

proof fn lemma_digit_roundtrip(d: int, upper: bool)
    requires
        0 <= d < 16,
    ensures
        is_hex_digit(if upper { upper_hex_digit(d) } else { lower_hex_digit(d) }),
        hex_value(if upper { upper_hex_digit(d) } else { lower_hex_digit(d) }) == d,
{
}

/// Writing a colour as `RRGGBB` (in either case), with or without a
/// leading `#`, and parsing it back gives the colour.
pub proof fn law_hex_roundtrip(r: u8, g: u8, b: u8, upper: bool)
    ensures
        hex_rgb(hex_text(r, g, b, upper)) == Some((r, g, b)),
        hex_rgb(seq!['#'] + hex_text(r, g, b, upper)) == Some((r, g, b)),
{
    let t = hex_text(r, g, b, upper);
    lemma_digit_roundtrip(r as int / 16, upper);
    lemma_digit_roundtrip(r as int % 16, upper);
    lemma_digit_roundtrip(g as int / 16, upper);
    lemma_digit_roundtrip(g as int % 16, upper);
    lemma_digit_roundtrip(b as int / 16, upper);
    lemma_digit_roundtrip(b as int % 16, upper);
    assert(without_hash(t) == t);
    assert(forall|i: int| 0 <= i < 6 ==> #[trigger] is_hex_digit(t[i]));
    assert((seq!['#'] + t).drop_first() =~= t);
}

/// A value that is not six hexadecimal digits after an optional `#`
/// gives no colour.
pub proof fn law_hex_needs_six_digits(s: Seq<char>)
    requires
        without_hash(s).len() != 6,
    ensures
        hex_rgb(s) is None,
{
}

/// The first `--bg=<hex>` decides, whatever follows it.
pub proof fn law_bg_assign_decides(pre: Seq<Seq<char>>, value: Seq<char>, post: Seq<Seq<char>>)
    requires
        no_bg_option(pre),
    ensures
        bg_arg(pre + seq![bg_assign() + value] + post) == hex_rgb(value),
    decreases pre.len(),
{
    let arg = bg_assign() + value;
    assert(arg.subrange(0, 5) =~= bg_assign());
    assert(arg.skip(5) =~= value);
    if pre.len() > 0 {
        assert(!bg_assign().is_prefix_of(pre[0]) && pre[0] != bg_flag());
        law_bg_assign_decides(pre.drop_first(), value, post);
        assert((pre + seq![arg] + post).drop_first() =~= pre.drop_first() + seq![arg] + post);
    } else {
        assert((pre + seq![arg] + post)[0] == arg);
    }
}

/// The first `--bg <hex>` decides by the argument after it, whatever
/// follows.
pub proof fn law_bg_flag_decides(pre: Seq<Seq<char>>, value: Seq<char>, post: Seq<Seq<char>>)
    requires
        no_bg_option(pre),
    ensures
        bg_arg(pre + seq![bg_flag(), value] + post) == hex_rgb(value),
    decreases pre.len(),
{
    let all = pre + seq![bg_flag(), value] + post;
    assert(!bg_assign().is_prefix_of(bg_flag()));
    if pre.len() > 0 {
        assert(!bg_assign().is_prefix_of(pre[0]) && pre[0] != bg_flag());
        law_bg_flag_decides(pre.drop_first(), value, post);
        assert(all.drop_first() =~= pre.drop_first() + seq![bg_flag(), value] + post);
    } else {
        assert(all[0] == bg_flag() && all[1] == value);
    }
}

/// `--bg=<hex>` and `--bg <hex>` ask for the same colour.
pub proof fn law_bg_forms_agree(pre: Seq<Seq<char>>, value: Seq<char>, post: Seq<Seq<char>>)
    requires
        no_bg_option(pre),
    ensures
        bg_arg(pre + seq![bg_assign() + value] + post) == bg_arg(
            pre + seq![bg_flag(), value] + post,
        ),
{
    law_bg_assign_decides(pre, value, post);
    law_bg_flag_decides(pre, value, post);
}

/// `--bg` as the last argument, with no value after it, gives no colour.
pub proof fn law_bg_flag_without_value(pre: Seq<Seq<char>>)
    requires
        no_bg_option(pre),
    ensures
        bg_arg(pre + seq![bg_flag()]) is None,
    decreases pre.len(),
{
    let all = pre + seq![bg_flag()];
    assert(!bg_assign().is_prefix_of(bg_flag()));
    if pre.len() > 0 {
        assert(!bg_assign().is_prefix_of(pre[0]) && pre[0] != bg_flag());
        law_bg_flag_without_value(pre.drop_first());
        assert(all.drop_first() =~= pre.drop_first() + seq![bg_flag()]);
    } else {
        assert(all =~= seq![bg_flag()]);
    }
}

/// Without the option there is no colour.
pub proof fn law_bg_absent(args: Seq<Seq<char>>)
    requires
        no_bg_option(args),
    ensures
        bg_arg(args) is None,
    decreases args.len(),
{
    if args.len() > 0 {
        assert(!bg_assign().is_prefix_of(args[0]) && args[0] != bg_flag());
        law_bg_absent(args.drop_first());
    }
}

fn is_hex_digit_char(c: char) -> (b: bool)
    ensures
        b == is_hex_digit(c),
{
    let v = c as u32;
    ('0' as u32 <= v && v <= '9' as u32) || ('a' as u32 <= v && v <= 'f' as u32) || ('A' as u32
        <= v && v <= 'F' as u32)
}

fn hex_value_of(c: char) -> (d: u8)
    requires
        is_hex_digit(c),
    ensures
        d == hex_value(c),
        d < 16,
{
    let v = c as u32;
    if '0' as u32 <= v && v <= '9' as u32 {
        (v - '0' as u32) as u8
    } else if 'a' as u32 <= v && v <= 'f' as u32 {
        (v - 'a' as u32 + 10) as u8
    } else {
        (v - 'A' as u32 + 10) as u8
    }
}

/// The colour written by `cs` from index `start` on (see [`hex_rgb`]).
fn hex_rgb_from(cs: &Vec<char>, start: usize) -> (res: Option<(u8, u8, u8)>)
    requires
        start <= cs.len(),
    ensures
        res == hex_rgb(cs@.skip(start as int)),
{
    let ghost s = cs@.skip(start as int);
    let mut i = start;
    if i < cs.len() && cs[i] == '#' {
        i = i + 1;
    }
    assert(without_hash(s) =~= cs@.skip(i as int));
    if cs.len() - i != 6 {
        return None;
    }
    let mut k: usize = 0;
    while k < 6
        invariant
            i + 6 == cs.len(),
            k <= 6,
            without_hash(s) == cs@.skip(i as int),
            s == cs@.skip(start as int),
            forall|j: int| 0 <= j < k ==> is_hex_digit(#[trigger] cs@[i + j]),
        decreases 6 - k,
    {
        if !is_hex_digit_char(cs[i + k]) {
            assert(!is_hex_digit(without_hash(s)[k as int]));
            return None;
        }
        k = k + 1;
    }
    assert forall|j: int| 0 <= j < 6 implies #[trigger] is_hex_digit(without_hash(s)[j]) by {
        assert(is_hex_digit(cs@[i + j]));
    }
    let r = hex_value_of(cs[i]) * 16 + hex_value_of(cs[i + 1]);
    let g = hex_value_of(cs[i + 2]) * 16 + hex_value_of(cs[i + 3]);
    let b = hex_value_of(cs[i + 4]) * 16 + hex_value_of(cs[i + 5]);
    Some((r, g, b))
}

/// Parse `RRGGBB` or `#RRGGBB` into a colour.
pub fn parse_hex_rgb(s: &str) -> (res: Option<(u8, u8, u8)>)
    ensures
        res == hex_rgb(s@),
{
    let cs = chars_of(s);
    assert(cs@.skip(0) =~= cs@);
    hex_rgb_from(&cs, 0)
}

/// Whether `cs` starts with `--bg=`.
fn starts_with_bg_assign(cs: &Vec<char>) -> (b: bool)
    ensures
        b == bg_assign().is_prefix_of(cs@),
{
    let b = cs.len() >= 5 && cs[0] == '-' && cs[1] == '-' && cs[2] == 'b' && cs[3] == 'g' && cs[4]
        == '=';
    proof {
        if b {
            assert(cs@.subrange(0, 5) =~= bg_assign());
        } else if cs.len() >= 5 {
            assert(cs@.subrange(0, 5)[0] == cs@[0]);
        }
    }
    b
}

/// Whether `cs` is `--bg`.
fn is_bg_flag(cs: &Vec<char>) -> (b: bool)
    ensures
        b == (cs@ == bg_flag()),
{
    let b = cs.len() == 4 && cs[0] == '-' && cs[1] == '-' && cs[2] == 'b' && cs[3] == 'g';
    proof {
        if b {
            assert(cs@ =~= bg_flag());
        }
    }
    b
}

/// Parse `--bg <hex>` (or `--bg=<hex>`) out of the argument list.
/// Accepts `RRGGBB` with or without a leading `#`. Anything else
/// returns `None` and the caller falls back to its own colour.
pub fn parse_bg_arg(args: &[String]) -> (res: Option<(u8, u8, u8)>)
    ensures
        res == bg_arg(texts(args@)),
{
    let ghost all = texts(args@);
    let mut i: usize = 0;
    assert(all.skip(0) =~= all);
    while i < args.len()
        invariant
            i <= args.len(),
            all == texts(args@),
            bg_arg(all) == bg_arg(all.skip(i as int)),
        decreases args.len() - i,
    {
        let ghost rest = all.skip(i as int);
        let cs = chars_of(args[i].as_str());
        assert(rest[0] == cs@);
        if starts_with_bg_assign(&cs) {
            return hex_rgb_from(&cs, 5);
        } else if is_bg_flag(&cs) {
            if i + 1 < args.len() {
                let next = chars_of(args[i + 1].as_str());
                assert(next@.skip(0) =~= next@);
                assert(rest[1] == next@);
                return hex_rgb_from(&next, 0);
            } else {
                return None;
            }
        }
        i = i + 1;
        assert(rest.drop_first() =~= all.skip(i as int));
    }
    None
}

} // verus!
