//! The horizontal picker: a scrolling list of labels with a cursor.
//!
//! The picker runs as two loops over one shared screen: a fast input loop
//! that moves the cursor or resolves the pick, and a slow render loop that
//! redraws the list. This module holds what each tick of either loop decides;
//! the loops themselves, their delays and the screen writes belong to the
//! caller.

use vstd::prelude::*;
use vstd::string::StrSliceExecFns;
use vstd::arithmetic::div_mod::{lemma_mod_bound, lemma_mod_self_0, lemma_small_mod};
use crate::text::{
    DISPLAY_WIDTH, MAX_TEXT_LEN, all_glyphs, glyph_width, is_glyph, span, spaces,
    str_width, underline_of, controller_char_width, lemma_glyph_sum_append,
    lemma_glyph_sum_bounds, lemma_glyph_width_bounds, push_spaces, push_text, string_from_chars,
    underline_string, is_displayable,
};

verus! {

/// Number of spaces between two labels of the list.
pub const SEPARATOR_LEN: usize = 3;

/// Characters of context kept on screen before the selected label.
pub const SCROLL_LEAD: usize = 5;

/// Marker drawn under the selected label.
pub const UNDERLINE_MARK: char = '^';

/// The buttons that went down since the previous read (held buttons do not
/// repeat).
#[derive(Clone, Copy, Debug, PartialEq, Eq)]
pub struct ButtonEdges {
    pub left: bool,
    pub right: bool,
    pub confirm: bool,
    pub cancel: bool,
}

/// What one tick of the input loop decided.
#[derive(Clone, Copy, Debug, PartialEq, Eq)]
pub enum InputStep {
    /// Nothing resolved: wait for the next tick.
    Continue,
    /// The label under the cursor was confirmed.
    Confirmed(usize),
    /// The user backed out.
    Cancelled,
    /// The selection phase is over: stop without a value.
    Aborted,
}

impl InputStep {
    /// The value the picker hands to its caller once this step ends it.
    pub open spec fn outcome(self) -> Option<usize> {
        match self {
            InputStep::Confirmed(i) => Some(i),
            _ => None,
        }
    }

    /// Whether the picker ends with this step, clearing the screen.
    pub open spec fn ends_picker(self) -> bool {
        !(self is Continue)
    }

    /// The picker's result, `Some` only once the picker has ended.
    pub fn result(&self) -> (r: Option<Option<usize>>)
        ensures
            r == (if self.ends_picker() { Some(self.outcome()) } else { None::<Option<usize>> }),
    {
        match self {
            InputStep::Continue => None,
            InputStep::Confirmed(i) => Some(Some(*i)),
            InputStep::Cancelled => Some(None),
            InputStep::Aborted => Some(None),
        }
    }
}

/// The two screen rows the render loop writes: the scrolled list and the
/// underline beneath it.
pub struct PickerFrame {
    pub line: String,
    pub underline: String,
}

/// Labels joined with separators.
pub open spec fn joined(o: Seq<Seq<char>>) -> Seq<char>
    decreases o.len(),
{
    if o.len() == 0 {
        Seq::empty()
    } else if o.len() == 1 {
        o[0]
    } else {
        joined(o.drop_last()) + spaces(SEPARATOR_LEN as nat) + o.last()
    }
}

/// Position of label `i` in the joined list.
pub open spec fn label_start(o: Seq<Seq<char>>, i: int) -> int
    decreases i,
{
    if i <= 0 {
        0
    } else {
        label_start(o, i - 1) + o[i - 1].len() + SEPARATOR_LEN
    }
}

/// First character of the joined list that is on screen when label `sel` is
/// selected: the selected label keeps a little context before it.
pub open spec fn scroll_offset(o: Seq<Seq<char>>, sel: int) -> int {
    if label_start(o, sel) > SCROLL_LEAD {
        label_start(o, sel) - SCROLL_LEAD
    } else {
        0
    }
}

/// Number of characters of `s`, counted from `k`, whose prefix still fits on
/// the screen.
pub open spec fn fit_count(s: Seq<char>, k: int) -> int
    decreases s.len() - k,
{
    if 0 <= k < s.len() && str_width(s.take(k + 1)) <= DISPLAY_WIDTH {
        fit_count(s, k + 1)
    } else {
        k
    }
}

/// The screen row showing `w`, the list from the scroll offset on. When all
/// of it fits, it is followed by as many spaces as still fit (none when it
/// fills the screen exactly); otherwise it is cut to what fits and its last
/// two characters give way to `"> "`, showing that more follows.
pub open spec fn fitted_line(w: Seq<char>) -> Seq<char> {
    if str_width(w) <= DISPLAY_WIDTH {
        w + spaces(((DISPLAY_WIDTH + 1 - span(w)) / (glyph_width(' ') + 1) as int) as nat)
    } else {
        let p = w.take(fit_count(w, 0));
        let keep = if p.len() >= 2 { p.len() - 2 } else { 0 };
        p.take(keep) + seq!['>', ' ']
    }
}

/// The list row while label `sel` of `o` is selected.
pub open spec fn frame_line(o: Seq<Seq<char>>, sel: int) -> Seq<char> {
    fitted_line(joined(o).skip(scroll_offset(o, sel)))
}

/// Where the selected label begins on the list row, cut to the row.
pub open spec fn frame_mark_start(o: Seq<Seq<char>>, sel: int) -> int {
    let at = label_start(o, sel) - scroll_offset(o, sel);
    let len = frame_line(o, sel).len() as int;
    if at < len { at } else { len }
}

/// Where the selected label ends on the list row, cut to the row.
pub open spec fn frame_mark_end(o: Seq<Seq<char>>, sel: int) -> int {
    let end = label_start(o, sel) - scroll_offset(o, sel) + o[sel].len();
    let len = frame_line(o, sel).len() as int;
    if end < len { end } else { len }
}

/// The underline row while label `sel` of `o` is selected.
pub open spec fn frame_underline(o: Seq<Seq<char>>, sel: int) -> Seq<char> {
    underline_of(
        frame_line(o, sel),
        UNDERLINE_MARK,
        frame_mark_start(o, sel),
        frame_mark_end(o, sel),
    )
}

/// Cursor after one tick of input: left and right wrap around the ends.
pub open spec fn moved_cursor(cursor: int, len: int, edges: ButtonEdges) -> int {
    if edges.left {
        (cursor + len - 1) % len
    } else if edges.right {
        (cursor + 1) % len
    } else {
        cursor
    }
}

/// Step taken by one tick of input. Buttons are read in a fixed order of
/// precedence: left, right, confirm, cancel.
pub open spec fn input_step(live: bool, cursor: int, edges: ButtonEdges) -> InputStep {
    if !live {
        InputStep::Aborted
    } else if edges.left || edges.right {
        InputStep::Continue
    } else if edges.confirm {
        InputStep::Confirmed(cursor as usize)
    } else if edges.cancel {
        InputStep::Cancelled
    } else {
        InputStep::Continue
    }
}

/// Left from the first label wraps to the last, right from the last wraps to
/// the first, and the cursor always stays on a label.
pub proof fn lemma_cursor_wraps(len: int, cursor: int, edges: ButtonEdges)
    requires
        len >= 1,
        0 <= cursor < len,
    ensures
        0 <= moved_cursor(cursor, len, edges) < len,
        edges.left && cursor == 0 ==> moved_cursor(cursor, len, edges) == len - 1,
        !edges.left && edges.right && cursor == len - 1 ==> moved_cursor(cursor, len, edges) == 0,
        !edges.left && edges.right && cursor < len - 1 ==> moved_cursor(cursor, len, edges) == cursor + 1,
{
    lemma_mod_bound(cursor + len - 1, len);
    lemma_mod_bound(cursor + 1, len);
    if cursor == 0 {
        lemma_small_mod((len - 1) as nat, len as nat);
    }
    if cursor == len - 1 {
        lemma_mod_self_0(len);
    } else {
        lemma_small_mod((cursor + 1) as nat, len as nat);
    }
}

/// Once the selection phase is over, a tick of input ends the picker with
/// no value, whatever was pressed, so the caller clears the screen and
/// treats it as a cancellation.
pub proof fn lemma_liveness_loss_cancels(cursor: int, edges: ButtonEdges)
    ensures
        input_step(false, cursor, edges) == InputStep::Aborted,
        input_step(false, cursor, edges).ends_picker(),
        input_step(false, cursor, edges).outcome() is None,
{
}

pub proof fn lemma_label_start_mono(o: Seq<Seq<char>>, i: int, j: int)
    requires
        0 <= i <= j <= o.len(),
    ensures
        label_start(o, i) + (if i < j { o[i].len() + SEPARATOR_LEN } else { 0 }) <= label_start(o, j),
    decreases j - i,
{
    if i < j {
        lemma_label_start_mono(o, i + 1, j);
    }
}

pub proof fn lemma_span_push(s: Seq<char>, k: int)
    requires
        0 <= k < s.len(),
    ensures
        span(s.take(k + 1)) == span(s.take(k)) + glyph_width(s[k]) + 1,
{
    assert(s.take(k + 1).drop_last() =~= s.take(k));
}

pub proof fn lemma_prefix_width_le(s: Seq<char>, k: int)
    requires
        0 <= k <= s.len(),
    ensures
        str_width(s.take(k)) <= str_width(s),
        span(s.take(k)) <= span(s),
{
    assert(s =~= s.take(k) + s.skip(k));
    lemma_glyph_sum_append(s.take(k), s.skip(k));
    lemma_glyph_sum_bounds(s.skip(k));
}

/// The labels are drawable and their joined list is of a measurable length.
pub open spec fn labels_ok(o: Seq<Seq<char>>) -> bool {
    &&& 1 <= o.len() <= MAX_TEXT_LEN
    &&& forall|i: int| 0 <= i < o.len() ==> all_glyphs(#[trigger] o[i])
    &&& label_start(o, o.len() as int) <= MAX_TEXT_LEN
}

/// Whether `options` can be shown by a picker, as `labels_ok` says.
pub fn labels_fit(options: &Vec<String>) -> (r: bool)
    ensures
        r == labels_ok(options@.map_values(|s: String| s@)),
{
    let ghost o = options@.map_values(|s: String| s@);
    let n = options.len();
    if n == 0 || n > MAX_TEXT_LEN {
        return false;
    }
    let mut total: usize = 0;
    let mut j: usize = 0;
    while j < n
        invariant
            o == options@.map_values(|s: String| s@),
            n == o.len(),
            j <= n,
            total == label_start(o, j as int) <= MAX_TEXT_LEN,
            forall|i: int| 0 <= i < j ==> all_glyphs(#[trigger] o[i]),
        decreases n - j,
    {
        let text = options[j].as_str();
        assert(o[j as int] == text@);
        if !is_displayable(text) {
            proof {
                lemma_label_start_mono(o, j as int, n as int);
            }
            return false;
        }
        let len = text.unicode_len();
        if len > MAX_TEXT_LEN - total || MAX_TEXT_LEN - total - len < SEPARATOR_LEN {
            proof {
                lemma_label_start_mono(o, j as int, n as int);
            }
            return false;
        }
        total = total + len + SEPARATOR_LEN;
        j = j + 1;
    }
    true
}

/// One invocation of the picker: its labels and its cursor.
pub struct PickerSession {
    options: Vec<String>,
    cursor: usize,
}

impl PickerSession {
    pub closed spec fn labels(&self) -> Seq<Seq<char>> {
        self.options@.map_values(|s: String| s@)
    }

    pub closed spec fn cursor_spec(&self) -> int {
        self.cursor as int
    }

    pub open spec fn wf(&self) -> bool {
        &&& labels_ok(self.labels())
        &&& 0 <= self.cursor_spec() < self.labels().len()
    }

    /// A picker over `options` with the cursor on the first one.
    pub fn new(options: Vec<String>) -> (r: Self)
        requires
            labels_ok(options@.map_values(|s: String| s@)),
        ensures
            r.wf(),
            r.labels() == options@.map_values(|s: String| s@),
            r.cursor_spec() == 0,
    {
        PickerSession { options, cursor: 0 }
    }

    pub fn cursor(&self) -> (r: usize)
        ensures
            r == self.cursor_spec(),
    {
        self.cursor
    }

    /// One tick of the input loop: reads the liveness flag first, then the
    /// newly pressed buttons.
    pub fn input_tick(&mut self, live: bool, edges: ButtonEdges) -> (r: InputStep)
        requires
            old(self).wf(),
        ensures
            final(self).wf(),
            final(self).labels() == old(self).labels(),
            final(self).cursor_spec() == (if live {
                moved_cursor(old(self).cursor_spec(), old(self).labels().len() as int, edges)
            } else {
                old(self).cursor_spec()
            }),
            r == input_step(live, old(self).cursor_spec(), edges),
    {
        if !live {
            return InputStep::Aborted;
        }
        let len = self.options.len();
        if edges.left {
            self.cursor = (self.cursor + len - 1) % len;
            InputStep::Continue
        } else if edges.right {
            self.cursor = (self.cursor + 1) % len;
            InputStep::Continue
        } else if edges.confirm {
            InputStep::Confirmed(self.cursor)
        } else if edges.cancel {
            InputStep::Cancelled
        } else {
            InputStep::Continue
        }
    }

    /// One tick of the render loop: the frame to draw, or `None` once the
    /// selection phase is over and the picker must stop.
    pub fn render_tick(&self, live: bool) -> (r: Option<PickerFrame>)
        requires
            self.wf(),
        ensures
            r is None <==> !live,
            r matches Some(f) ==> f.line@ == frame_line(self.labels(), self.cursor_spec())
                && f.underline@ == frame_underline(self.labels(), self.cursor_spec()),
    {
        if live {
            Some(self.frame())
        } else {
            None
        }
    }

    /// The list row and the underline row for the current cursor.
    pub fn frame(&self) -> (r: PickerFrame)
        requires
            self.wf(),
        ensures
            r.line@ == frame_line(self.labels(), self.cursor_spec()),
            r.underline@ == frame_underline(self.labels(), self.cursor_spec()),
    {
        let ghost o = self.labels();
        let sel = self.cursor;
        let (full, start) = join_labels(&self.options, sel);
        proof {
            lemma_label_start_mono(o, sel as int, o.len() as int);
            assert(o[sel as int] == self.options@[sel as int]@);
        }
        let offset: usize = if start > SCROLL_LEAD {
            start - SCROLL_LEAD
        } else {
            0
        };
        let win = tail_from(&full, offset);
        let row = fit_row(&win);
        // The selected label's characters on the row.
        let len = row.len();
        let at = start - offset;
        let label_len = self.options[sel].as_str().unicode_len();
        let mark_start = if at < len {
            at
        } else {
            len
        };
        let mark_end = if at + label_len < len {
            at + label_len
        } else {
            len
        };
        let line_text = string_from_chars(&row);
        proof {
            lemma_glyph_width_bounds(UNDERLINE_MARK);
        }
        let underline = underline_string(line_text.as_str(), UNDERLINE_MARK, mark_start..mark_end);
        PickerFrame { line: line_text, underline }
    }
}

/// The labels joined with separators, and where label `sel` starts.
fn join_labels(options: &Vec<String>, sel: usize) -> (r: (Vec<char>, usize))
    requires
        labels_ok(options@.map_values(|s: String| s@)),
        sel < options@.len(),
    ensures
        r.0@ == joined(options@.map_values(|s: String| s@)),
        all_glyphs(r.0@),
        r.1 == label_start(options@.map_values(|s: String| s@), sel as int),
        r.0@.len() + SEPARATOR_LEN == label_start(
            options@.map_values(|s: String| s@),
            options@.len() as int,
        ),
{
    let ghost o = options@.map_values(|s: String| s@);
    let n = options.len();
    let mut full: Vec<char> = Vec::new();
    let mut start: usize = 0;
    let mut j: usize = 0;
    while j < n
        invariant
            labels_ok(o),
            o == options@.map_values(|s: String| s@),
            n == o.len(),
            sel < n,
            j <= n,
            full@ == joined(o.take(j as int)),
            all_glyphs(full@),
            j > 0 ==> full@.len() + SEPARATOR_LEN == label_start(o, j as int),
            j == 0 ==> full@.len() == 0,
            (sel < j) ==> start == label_start(o, sel as int),
        decreases n - j,
    {
        proof {
            lemma_label_start_mono(o, j as int, n as int);
            lemma_label_start_mono(o, j + 1, n as int);
            assert(o[j as int] == options@[j as int]@);
        }
        let ghost before = full@;
        if j > 0 {
            push_spaces(&mut full, SEPARATOR_LEN);
        }
        if j == sel {
            start = full.len();
        }
        push_text(&mut full, options[j].as_str());
        proof {
            let t = o.take(j + 1);
            assert(t.drop_last() =~= o.take(j as int));
            assert(t.last() == o[j as int]);
            if j == 0 {
                assert(t =~= seq![o[0]]);
                assert(full@ =~= o[0]);
            } else {
                assert(full@ =~= joined(o.take(j as int)) + spaces(SEPARATOR_LEN as nat) + o[j as int]);
            }
            assert forall|i: int| 0 <= i < full@.len() implies is_glyph(#[trigger] full@[i]) by {
                if i >= before.len() && j > 0 && i < before.len() + SEPARATOR_LEN {
                } else if i >= before.len() {
                    assert(all_glyphs(o[j as int]));
                }
            }
        }
        j = j + 1;
    }
    proof {
        assert(o.take(n as int) =~= o);
    }
    (full, start)
}

/// The characters of `full` from `offset` on.
fn tail_from(full: &Vec<char>, offset: usize) -> (r: Vec<char>)
    requires
        offset <= full@.len(),
    ensures
        r@ == full@.skip(offset as int),
{
    let mut win: Vec<char> = Vec::new();
    let mut i: usize = offset;
    while i < full.len()
        invariant
            offset <= i <= full@.len(),
            win@ == full@.subrange(offset as int, i as int),
        decreases full@.len() - i,
    {
        win.push(full[i]);
        i = i + 1;
        assert(win@ =~= full@.subrange(offset as int, i as int));
    }
    assert(win@ =~= full@.skip(offset as int));
    win
}

/// Fits `win` to the width of the screen, as `fitted_line` says.
fn fit_row(win: &Vec<char>) -> (r: Vec<char>)
    requires
        all_glyphs(win@),
    ensures
        r@ == fitted_line(win@),
        all_glyphs(r@),
        r@.len() <= MAX_TEXT_LEN,
{
    let ghost w = win@;
    let mut k: usize = 0;
    let mut acc: usize = 0;
    while k < win.len() && acc + controller_char_width(win[k]) + 1 <= DISPLAY_WIDTH + 1
        invariant
            win@ == w,
            all_glyphs(w),
            k <= w.len(),
            acc == span(w.take(k as int)),
            k <= acc <= DISPLAY_WIDTH + 1,
            fit_count(w, 0) == fit_count(w, k as int),
        decreases w.len() - k,
    {
        proof {
            lemma_span_push(w, k as int);
        }
        acc = acc + controller_char_width(win[k]) + 1;
        k = k + 1;
    }
    proof {
        if k < w.len() {
            lemma_span_push(w, k as int);
            lemma_prefix_width_le(w, k + 1);
        }
        assert(w.take(k as int).len() == k);
        lemma_glyph_sum_bounds(w.take(k as int));
        assert(fit_count(w, k as int) == k);
    }
    let at_end = k == win.len() && acc <= DISPLAY_WIDTH + 1;
    proof {
        if k == w.len() {
            assert(w.take(k as int) =~= w);
        }
        assert(at_end == (str_width(w) <= DISPLAY_WIDTH));
    }
    let mut row: Vec<char> = Vec::new();
    let mut m: usize = 0;
    while m < k
        invariant
            m <= k <= win@.len(),
            row@ == win@.take(m as int),
        decreases k - m,
    {
        row.push(win[m]);
        m = m + 1;
        assert(row@ =~= win@.take(m as int));
    }
    let ghost p = row@;
    if at_end {
        assert(w.take(k as int) =~= w);
        let space_advance = controller_char_width(' ') + 1;
        push_spaces(&mut row, (DISPLAY_WIDTH + 1 - acc) / space_advance);
    } else {
        if row.len() > 0 {
            row.pop();
        }
        if row.len() > 0 {
            row.pop();
        }
        assert(row@ =~= p.take(if p.len() >= 2 { p.len() - 2 } else { 0 }));
        row.push('>');
        row.push(' ');
    }
    assert(row@ =~= fitted_line(w));
    assert forall|x: int| 0 <= x < row@.len() implies is_glyph(#[trigger] row@[x]) by {
        if x < p.len() && (at_end || x + 2 < row@.len()) {
            assert(row@[x] == w[x]);
        }
    }
    row
}

} // verus!
