//! Pixel layout of text on the controller's 128-pixel-wide screen.
//!
//! The screen font is proportional: every glyph has its own width and two
//! neighbouring glyphs are separated by one blank pixel column. All layout
//! decisions (centering, underlining, scrolling) are therefore made in pixels.

use vstd::prelude::*;
use vstd::string::StrSliceExecFns;

verus! {

/// Width of the controller screen in pixel columns.
pub const DISPLAY_WIDTH: usize = 128;

/// Upper bound on the number of characters a measured string may hold, so
/// that pixel sums stay within `usize`.
pub const MAX_TEXT_LEN: usize = 0x1000_0000;

/// Widest advance of one glyph: the widest glyph and its gap.
pub const MAX_ADVANCE: usize = 13;

/// The font covers exactly the printable ASCII characters.
pub open spec fn is_glyph(c: char) -> bool {
    ' ' <= c && c <= '~'
}

pub open spec fn all_glyphs(s: Seq<char>) -> bool {
    forall|i: int| 0 <= i < s.len() ==> is_glyph(#[trigger] s[i])
}

/// Pixel width of one glyph of the font.
pub open spec fn glyph_width(c: char) -> nat {
    match c {
        'a' => 6,
        'b' => 6,
        'c' => 5,
        'd' => 6,
        'e' => 6,
        'f' => 4,
        'g' => 6,
        'h' => 6,
        'i' => 1,
        'j' => 3,
        'k' => 5,
        'l' => 1,
        'm' => 9,
        'n' => 6,
        'o' => 6,
        'p' => 6,
        'q' => 6,
        'r' => 4,
        's' => 6,
        't' => 5,
        'u' => 6,
        'v' => 6,
        'w' => 10,
        'x' => 5,
        'y' => 6,
        'z' => 5,
        'A' => 8,
        'B' => 6,
        'C' => 7,
        'D' => 7,
        'E' => 5,
        'F' => 5,
        'G' => 8,
        'H' => 7,
        'I' => 3,
        'J' => 3,
        'K' => 6,
        'L' => 5,
        'M' => 9,
        'N' => 7,
        'O' => 8,
        'P' => 6,
        'Q' => 8,
        'R' => 6,
        'S' => 6,
        'T' => 7,
        'U' => 7,
        'V' => 8,
        'W' => 12,
        'X' => 7,
        'Y' => 7,
        'Z' => 6,
        '0' => 6,
        '1' => 3,
        '2' => 6,
        '3' => 6,
        '4' => 7,
        '5' => 6,
        '6' => 6,
        '7' => 6,
        '8' => 6,
        '9' => 6,
        ' ' => 4,
        '!' => 1,
        '"' => 3,
        '#' => 8,
        '$' => 6,
        '%' => 10,
        '&' => 8,
        '\'' => 1,
        '(' => 2,
        ')' => 2,
        '*' => 6,
        '+' => 7,
        ',' => 1,
        '-' => 3,
        '.' => 1,
        '/' => 5,
        ':' => 1,
        ';' => 1,
        '<' => 6,
        '=' => 6,
        '>' => 6,
        '?' => 5,
        '@' => 10,
        '[' => 3,
        '\\' => 5,
        ']' => 3,
        '^' => 6,
        '_' => 6,
        '`' => 2,
        '{' => 4,
        '|' => 1,
        '}' => 4,
        '~' => 6,
        _ => 0,
    }
}

/// Sum of the glyph widths of `s`, without the gaps between glyphs.
pub open spec fn glyph_sum(s: Seq<char>) -> int
    decreases s.len(),
{
    if s.len() == 0 {
        0
    } else {
        glyph_sum(s.drop_last()) + glyph_width(s.last())
    }
}

/// Rendered width of `s`: its glyphs plus one gap between each adjacent pair.
pub open spec fn str_width(s: Seq<char>) -> int {
    if s.len() == 0 {
        0
    } else {
        glyph_sum(s) + s.len() - 1
    }
}

/// Pixels that `s` advances the pen: every glyph followed by its gap.
pub open spec fn span(s: Seq<char>) -> int {
    glyph_sum(s) + s.len()
}

pub open spec fn spaces(n: nat) -> Seq<char> {
    Seq::new(n, |i: int| ' ')
}

pub proof fn lemma_glyph_width_bounds(c: char)
    ensures
        0 <= glyph_width(c) <= 12,
        is_glyph(c) ==> glyph_width(c) >= 1,
{
}

pub proof fn lemma_glyph_sum_append(a: Seq<char>, b: Seq<char>)
    ensures
        glyph_sum(a + b) == glyph_sum(a) + glyph_sum(b),
    decreases b.len(),
{
    if b.len() > 0 {
        assert((a + b).drop_last() =~= a + b.drop_last());
        lemma_glyph_sum_append(a, b.drop_last());
    } else {
        assert(a + b =~= a);
    }
}

pub proof fn lemma_glyph_sum_bounds(s: Seq<char>)
    ensures
        0 <= glyph_sum(s) <= 12 * s.len(),
    decreases s.len(),
{
    if s.len() > 0 {
        lemma_glyph_sum_bounds(s.drop_last());
        lemma_glyph_width_bounds(s.last());
    }
}

pub proof fn lemma_glyph_sum_spaces(n: nat)
    ensures
        glyph_sum(spaces(n)) == 4 * n,
    decreases n,
{
    if n > 0 {
        assert(spaces(n).drop_last() =~= spaces((n - 1) as nat));
        lemma_glyph_sum_spaces((n - 1) as nat);
    }
}

/// Pixel width of one character of the font.
pub fn controller_char_width(letter: char) -> (r: usize)
    requires
        is_glyph(letter),
    ensures
        r == glyph_width(letter),
        1 <= r <= 12,
{
    match letter {
        'a' => 6,
        'b' => 6,
        'c' => 5,
        'd' => 6,
        'e' => 6,
        'f' => 4,
        'g' => 6,
        'h' => 6,
        'i' => 1,
        'j' => 3,
        'k' => 5,
        'l' => 1,
        'm' => 9,
        'n' => 6,
        'o' => 6,
        'p' => 6,
        'q' => 6,
        'r' => 4,
        's' => 6,
        't' => 5,
        'u' => 6,
        'v' => 6,
        'w' => 10,
        'x' => 5,
        'y' => 6,
        'z' => 5,
        'A' => 8,
        'B' => 6,
        'C' => 7,
        'D' => 7,
        'E' => 5,
        'F' => 5,
        'G' => 8,
        'H' => 7,
        'I' => 3,
        'J' => 3,
        'K' => 6,
        'L' => 5,
        'M' => 9,
        'N' => 7,
        'O' => 8,
        'P' => 6,
        'Q' => 8,
        'R' => 6,
        'S' => 6,
        'T' => 7,
        'U' => 7,
        'V' => 8,
        'W' => 12,
        'X' => 7,
        'Y' => 7,
        'Z' => 6,
        '0' => 6,
        '1' => 3,
        '2' => 6,
        '3' => 6,
        '4' => 7,
        '5' => 6,
        '6' => 6,
        '7' => 6,
        '8' => 6,
        '9' => 6,
        ' ' => 4,
        '!' => 1,
        '"' => 3,
        '#' => 8,
        '$' => 6,
        '%' => 10,
        '&' => 8,
        '\'' => 1,
        '(' => 2,
        ')' => 2,
        '*' => 6,
        '+' => 7,
        ',' => 1,
        '-' => 3,
        '.' => 1,
        '/' => 5,
        ':' => 1,
        ';' => 1,
        '<' => 6,
        '=' => 6,
        '>' => 6,
        '?' => 5,
        '@' => 10,
        '[' => 3,
        '\\' => 5,
        ']' => 3,
        '^' => 6,
        '_' => 6,
        '`' => 2,
        '{' => 4,
        '|' => 1,
        '}' => 4,
        '~' => 6,
        _ => 0,
    }
}

/// Whether `s` can be measured and drawn: only glyphs of the font, and of
/// a measurable length.
pub fn is_displayable(s: &str) -> (r: bool)
    ensures
        r == (all_glyphs(s@) && s@.len() <= MAX_TEXT_LEN),
{
    let n = s.unicode_len();
    if n > MAX_TEXT_LEN {
        return false;
    }
    let mut i: usize = 0;
    while i < n
        invariant
            n == s@.len(),
            i <= n,
            forall|k: int| 0 <= k < i ==> is_glyph(#[trigger] s@[k]),
        decreases n - i,
    {
        let c = s.get_char(i);
        if !(' ' <= c && c <= '~') {
            return false;
        }
        i = i + 1;
    }
    true
}

/// Rendered width of the first `k` characters of `s`.
fn prefix_width(s: &str, k: usize) -> (r: usize)
    requires
        k <= s@.len() <= MAX_TEXT_LEN,
        all_glyphs(s@),
    ensures
        r == str_width(s@.take(k as int)),
{
    let mut total: usize = 0;
    let mut i: usize = 0;
    while i < k
        invariant
            i <= k <= s@.len() <= MAX_TEXT_LEN,
            all_glyphs(s@),
            total == span(s@.take(i as int)),
            i <= total <= MAX_ADVANCE * i,
        decreases k - i,
    {
        let c = s.get_char(i);
        let w = controller_char_width(c);
        proof {
            assert(s@.take(i + 1).drop_last() =~= s@.take(i as int));
        }
        total = total + w + 1;
        i = i + 1;
    }
    if k == 0 {
        0
    } else {
        total - 1
    }
}

/// Rendered width of `s` in pixels.
pub fn controller_str_width(s: &str) -> (r: usize)
    requires
        s@.len() <= MAX_TEXT_LEN,
        all_glyphs(s@),
    ensures
        r == str_width(s@),
        s@.len() == 0 ==> r == 0,
        s@.len() >= 1 ==> r == glyph_sum(s@) + (s@.len() - 1),
{
    let n = s.unicode_len();
    assert(s@.take(n as int) =~= s@);
    prefix_width(s, n)
}

/// Relies on `String`'s `FromIterator<&char>`: the characters are collected
/// into a string in the order given.
#[verifier::external_body]
pub(crate) fn string_from_chars(chars: &Vec<char>) -> (r: String)
    ensures
        r@ == chars@,
{
    chars.iter().collect()
}

pub(crate) fn push_spaces(v: &mut Vec<char>, n: usize)
    ensures
        final(v)@ == old(v)@ + spaces(n as nat),
{
    let mut i: usize = 0;
    while i < n
        invariant
            i <= n,
            v@ == old(v)@ + spaces(i as nat),
        decreases n - i,
    {
        v.push(' ');
        i = i + 1;
        assert(v@ =~= old(v)@ + spaces(i as nat));
    }
}

pub(crate) fn push_text(v: &mut Vec<char>, s: &str)
    ensures
        final(v)@ == old(v)@ + s@,
{
    let n = s.unicode_len();
    let mut i: usize = 0;
    while i < n
        invariant
            i <= n == s@.len(),
            v@ == old(v)@ + s@.take(i as int),
        decreases n - i,
    {
        v.push(s.get_char(i));
        i = i + 1;
        assert(v@ =~= old(v)@ + s@.take(i as int));
    }
    assert(s@.take(n as int) =~= s@);
}

/// Spaces put on each side of a text of rendered width `w` to center it:
/// half of the free width, in whole space glyphs with their gaps.
pub open spec fn center_padding(w: int) -> nat {
    if w <= DISPLAY_WIDTH {
        ((DISPLAY_WIDTH - w) / 2 / (glyph_width(' ') + 1) as int) as nat
    } else {
        0
    }
}

/// `s` with the same number of spaces on each side, centering it on screen.
pub open spec fn centered(s: Seq<char>) -> Seq<char> {
    let p = center_padding(str_width(s));
    spaces(p) + s + spaces(p)
}

/// Pads `s` with spaces on both sides so that it sits centered on the screen.
pub fn center_string(s: &str) -> (r: String)
    requires
        s@.len() <= MAX_TEXT_LEN,
        all_glyphs(s@),
    ensures
        r@ == centered(s@),
{
    let width = controller_str_width(s);
    let space_advance = controller_char_width(' ') + 1;
    let padding: usize = if width <= DISPLAY_WIDTH {
        (DISPLAY_WIDTH - width) / 2 / space_advance
    } else {
        0
    };
    let mut v: Vec<char> = Vec::new();
    push_spaces(&mut v, padding);
    push_text(&mut v, s);
    push_spaces(&mut v, padding);
    string_from_chars(&v)
}

/// A centered text is balanced, with as many spaces before it as after it,
/// and it fits on the screen whenever the text alone does.
pub proof fn lemma_centered_fits(s: Seq<char>)
    requires
        all_glyphs(s),
        str_width(s) <= DISPLAY_WIDTH,
    ensures
        centered(s) == spaces(center_padding(str_width(s))) + s + spaces(center_padding(str_width(s))),
        str_width(centered(s)) <= DISPLAY_WIDTH,
{
    let p = center_padding(str_width(s));
    let w = str_width(s);
    lemma_glyph_sum_spaces(p);
    lemma_glyph_sum_append(spaces(p), s);
    lemma_glyph_sum_append(spaces(p) + s, spaces(p));
    lemma_glyph_sum_bounds(s);
    assert(glyph_sum(centered(s)) == 8 * p + glyph_sum(s));
    assert(centered(s).len() == 2 * p + s.len());
    let x = DISPLAY_WIDTH - w;
    assert(10 * ((x / 2) / 5) <= x) by (nonlinear_arith)
        requires
            x >= 0,
    ;
}

/// Characters of an underline running from pixel column `col` to `width`:
/// the marker `c` wherever a glyph starts inside `[lo, hi)`, a space
/// elsewhere.
pub open spec fn underline_from(col: int, width: int, lo: int, hi: int, c: char) -> Seq<char>
    decreases (if col < width { width - col } else { 0 }),
{
    if col >= width {
        Seq::empty()
    } else if lo <= col < hi {
        seq![c] + underline_from(col + glyph_width(c) + 1, width, lo, hi, c)
    } else {
        seq![' '] + underline_from(col + glyph_width(' ') + 1, width, lo, hi, c)
    }
}

/// First pixel column of the characters `line[start..end)`.
pub open spec fn marked_lo(line: Seq<char>, start: int) -> int {
    str_width(line.take(start))
}

/// End of the marked columns: the end of `line[..end)`, less half a marker.
pub open spec fn marked_hi(line: Seq<char>, end: int, c: char) -> int {
    str_width(line.take(end)) - glyph_width(c) / 2
}

/// The underline of `line` that marks the characters `line[start..end)`.
pub open spec fn underline_of(line: Seq<char>, c: char, start: int, end: int) -> Seq<char> {
    underline_from(0, str_width(line), marked_lo(line, start), marked_hi(line, end, c), c)
}

/// A line as wide as `s` that shows `c` under the characters in `range` and
/// spaces elsewhere.
pub fn underline_string(s: &str, c: char, range: core::ops::Range<usize>) -> (r: String)
    requires
        s@.len() <= MAX_TEXT_LEN,
        all_glyphs(s@),
        is_glyph(c),
        range.start <= range.end <= s@.len(),
    ensures
        r@ == underline_of(s@, c, range.start as int, range.end as int),
{
    let n = s.unicode_len();
    assert(s@.take(n as int) =~= s@);
    let width = prefix_width(s, n);
    let lo = prefix_width(s, range.start);
    let marker_width = controller_char_width(c);
    let hi = prefix_width(s, range.end).saturating_sub(marker_width / 2);
    let ghost hi_spec = marked_hi(s@, range.end as int, c);
    let ghost total = underline_from(0, width as int, lo as int, hi_spec, c);
    proof {
        lemma_glyph_sum_bounds(s@);
    }
    let mut v: Vec<char> = Vec::new();
    let mut col: usize = 0;
    while col < width
        invariant
            width == str_width(s@) <= MAX_ADVANCE * MAX_TEXT_LEN,
            1 <= marker_width <= 12,
            marker_width == glyph_width(c),
            hi as int == (if hi_spec >= 0 { hi_spec } else { 0 }),
            col <= width + MAX_ADVANCE,
            v@ + underline_from(col as int, width as int, lo as int, hi_spec, c) == total,
        decreases (if col < width { width - col } else { 0 }),
    {
        let ghost before = v@;
        let ghost from = col as int;
        if lo <= col && col < hi {
            v.push(c);
            col = col + marker_width + 1;
        } else {
            v.push(' ');
            col = col + 5;
        }
        assert(underline_from(from, width as int, lo as int, hi_spec, c) =~= seq![v@.last()]
            + underline_from(col as int, width as int, lo as int, hi_spec, c));
        assert(v@ + underline_from(col as int, width as int, lo as int, hi_spec, c) =~= before
            + underline_from(from, width as int, lo as int, hi_spec, c));
    }
    string_from_chars(&v)
}

/// The empty string has width zero; any other string is as wide as the sum of
/// its glyphs plus one gap between each adjacent pair.
pub proof fn lemma_str_width_sum(s: Seq<char>)
    ensures
        str_width(Seq::<char>::empty()) == 0,
        s.len() >= 1 ==> str_width(s) == glyph_sum(s) + (s.len() - 1),
        s.len() >= 1 ==> glyph_sum(s) == glyph_sum(s.drop_last()) + glyph_width(s.last()),
{
}

/// Largest advance of one underline character: the marker or a space, with
/// its gap.
pub open spec fn underline_step(c: char) -> int {
    if glyph_width(c) > glyph_width(' ') {
        glyph_width(c) + 1int
    } else {
        glyph_width(' ') + 1int
    }
}

/// Pixel column at which character `i` of `r` starts, for a row drawn from
/// column `col`.
pub open spec fn column_of(r: Seq<char>, col: int, i: int) -> int {
    col + span(r.take(i))
}

/// An underline holds only markers and spaces; a character is the marker
/// exactly when the column it starts at lies in `[lo, hi)`; and the row is
/// at least as wide as the line it underlines, overshooting by less than one
/// glyph.
pub proof fn lemma_underline_columns(col: int, width: int, lo: int, hi: int, c: char)
    requires
        is_glyph(c),
        c != ' ',
        0 <= col <= width,
    ensures
        ({
            let r = underline_from(col, width, lo, hi, c);
            &&& forall|i: int| 0 <= i < r.len() ==> (#[trigger] r[i] == c || r[i] == ' ')
            &&& forall|i: int|
                0 <= i < r.len() ==> (#[trigger] r[i] == c <==> lo <= column_of(r, col, i) < hi)
            &&& width <= col + span(r) < width + underline_step(c)
        }),
    decreases width - col,
{
    let r = underline_from(col, width, lo, hi, c);
    lemma_glyph_width_bounds(c);
    lemma_glyph_width_bounds(' ');
    if col < width {
        let x = r[0];
        let step = glyph_width(x) + 1;
        let rest = underline_from(col + step, width, lo, hi, c);
        assert(r =~= seq![x] + rest);
        assert(seq![x].drop_last() =~= Seq::<char>::empty());
        assert(seq![x].last() == x);
        assert(glyph_sum(seq![x]) == glyph_sum(Seq::<char>::empty()) + glyph_width(x));
        assert(span(seq![x]) == step);
        lemma_glyph_sum_append(seq![x], rest);
        if col + step <= width {
            lemma_underline_columns(col + step, width, lo, hi, c);
        } else {
            assert(rest.len() == 0);
        }
        assert forall|i: int| 0 <= i < r.len() implies (#[trigger] r[i] == c <==> lo <= column_of(r, col, i) < hi) by {
            if i == 0 {
                assert(r.take(0) =~= Seq::<char>::empty());
            } else {
                assert(r.take(i) =~= seq![x] + rest.take(i - 1));
                lemma_glyph_sum_append(seq![x], rest.take(i - 1));
                assert(r[i] == rest[i - 1]);
                assert(column_of(r, col, i) == column_of(rest, col + step, i - 1));
            }
        }
        assert forall|i: int| 0 <= i < r.len() implies (#[trigger] r[i] == c || r[i] == ' ') by {
            if i > 0 {
                assert(r[i] == rest[i - 1]);
            }
        }
    }
}

/// The underline of `line` marking `line[start..end)`: only markers and
/// spaces; a marker exactly where a character starts at a column from the
/// start of the marked characters up to their end less half a marker; and
/// as wide as `line` up to one underline character's advance.
pub proof fn lemma_underline_law(line: Seq<char>, c: char, start: int, end: int)
    requires
        all_glyphs(line),
        is_glyph(c),
        c != ' ',
        0 <= start <= end <= line.len(),
    ensures
        ({
            let r = underline_of(line, c, start, end);
            &&& forall|i: int| 0 <= i < r.len() ==> (#[trigger] r[i] == c || r[i] == ' ')
            &&& forall|i: int|
                0 <= i < r.len() ==> (#[trigger] r[i] == c <==> marked_lo(line, start)
                    <= column_of(r, 0, i) < marked_hi(line, end, c))
            &&& str_width(line) <= span(r) < str_width(line) + underline_step(c)
            &&& r.len() > 0 ==> str_width(line) - 1 <= str_width(r) < str_width(line) - 1
                + underline_step(c)
        }),
{
    lemma_glyph_sum_bounds(line);
    lemma_underline_columns(0, str_width(line), marked_lo(line, start), marked_hi(line, end, c), c);
}

} // verus!
