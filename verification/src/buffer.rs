//! The text of an open file: its lines, how they are drawn, and the cursor.
use crate::input::CursorDirection;
use crate::location::{loc_lt, Location};
use crate::small::{chars16, chars16_as_slice, chars16_len, chars16_new, chars16_push};
use crate::text::{
    is_ascii_control, is_ascii_control_spec, lines_acc, lines_spec, push_char, split_lines,
    strings_view, strip_cr,
};
use tinyvec::ArrayVec;
use vstd::math::min;
use vstd::prelude::*;

verus! {

/// The lower-case hexadecimal digit for a value below 16.
pub open spec fn hex_digit(d: u8) -> char {
    if d < 10 {
        (48 + d) as char
    } else {
        (87 + d) as char
    }
}

/// The two hexadecimal digits of a byte, high digit first.
fn to_hex(x: u8) -> (r: (char, char))
    ensures
        r == (hex_digit(x >> 4), hex_digit(x & 0xf)),
{
    let lo = x & 0xf;
    let hi = x >> 4;
    assert(lo < 16 && hi < 16) by (bit_vector)
        requires
            lo == x & 0xf,
            hi == x >> 4,
    ;
    let a = if hi < 10 {
        (48u8 + hi) as char
    } else {
        (97u8 + (hi - 10)) as char
    };
    let b = if lo < 10 {
        (48u8 + lo) as char
    } else {
        (97u8 + (lo - 10)) as char
    };
    (a, b)
}

/// How one character of a line is drawn: a tab as four spaces, an ASCII
/// control character as `X` and its code in hexadecimal, anything else as
/// itself.
pub open spec fn rendered_char_spec(c: char) -> Seq<char> {
    if c == '\t' {
        seq![' ', ' ', ' ', ' ']
    } else if is_ascii_control_spec(c) {
        seq!['X', hex_digit((c as u8) >> 4), hex_digit((c as u8) & 0xf)]
    } else {
        seq![c]
    }
}

/// How a line is drawn: each character drawn in turn.
pub open spec fn render_spec(s: Seq<char>) -> Seq<char>
    decreases s.len(),
{
    if s.len() == 0 {
        Seq::empty()
    } else {
        render_spec(s.drop_last()) + rendered_char_spec(s.last())
    }
}

/// Drawing a concatenation draws each part.
pub proof fn lemma_render_concat(a: Seq<char>, b: Seq<char>)
    ensures
        render_spec(a + b) == render_spec(a) + render_spec(b),
    decreases b.len(),
{
    if b.len() == 0 {
        assert(a + b == a);
    } else {
        lemma_render_concat(a, b.drop_last());
        assert((a + b).drop_last() == a + b.drop_last());
    }
}

/// Drawing one more character appends its drawing.
pub proof fn lemma_render_push(a: Seq<char>, c: char)
    ensures
        render_spec(a.push(c)) == render_spec(a) + rendered_char_spec(c),
{
    assert(a.push(c).drop_last() == a);
}

/// A drawn prefix is no longer than the drawing of the whole line.
pub proof fn lemma_render_take_len(s: Seq<char>, i: int, j: int)
    requires
        0 <= i <= j <= s.len(),
    ensures
        render_spec(s.take(i)).len() <= render_spec(s.take(j)).len(),
    decreases j - i,
{
    if i < j {
        lemma_render_take_len(s, i, j - 1);
        assert(s.take(j).drop_last() == s.take(j - 1));
    }
}

/// The characters of a string, in order.
pub fn str_chars(s: &str) -> (v: Vec<char>)
    ensures
        v@ == s@,
{
    let mut v: Vec<char> = Vec::new();
    for c in it: s.chars()
        invariant
            it.seq() == s@,
            v@ == it.seq().take(it.index() as int),
    {
        assert(it.seq().take(it.index() + 1) == v@.push(c));
        v.push(c);
    }
    v
}

/// One line of a buffer: its characters, and how they are drawn.
#[derive(Debug, PartialEq, Eq)]
pub struct Row {
    content: String,
    render: String,
    /// number of *visible* chars in `render`
    render_chars: usize,
}

impl View for Row {
    type V = Seq<char>;

    closed spec fn view(&self) -> Seq<char> {
        self.content@
    }
}

impl Row {
    #[verifier::type_invariant]
    spec fn wf(self) -> bool {
        &&& self.render@ == render_spec(self.content@)
        &&& self.render_chars <= self.content@.len()
    }

    fn rendered_char(ch: char) -> (r: ArrayVec<[char; 16]>)
        ensures
            chars16(r) == rendered_char_spec(ch),
    {
        let mut v = chars16_new();
        if ch == '\t' {
            chars16_push(&mut v, ' ');
            chars16_push(&mut v, ' ');
            chars16_push(&mut v, ' ');
            chars16_push(&mut v, ' ');
        } else if is_ascii_control(ch) {
            let (a, b) = to_hex(ch as u8);
            chars16_push(&mut v, 'X');
            chars16_push(&mut v, a);
            chars16_push(&mut v, b);
        } else {
            chars16_push(&mut v, ch);
        }
        v
    }

    /// Appends the drawing of `ch` to `out`.
    fn push_rendered(out: &mut String, ch: char)
        ensures
            final(out)@ == old(out)@ + rendered_char_spec(ch),
    {
        let r = Self::rendered_char(ch);
        let sl = chars16_as_slice(&r);
        let n = sl.len();
        let mut j: usize = 0;
        while j < n
            invariant
                n == sl@.len(),
                sl@ == rendered_char_spec(ch),
                j <= n,
                out@ == old(out)@ + sl@.take(j as int),
            decreases n - j,
        {
            assert(sl@.take(j + 1) == sl@.take(j as int).push(sl@[j as int]));
            push_char(out, sl[j]);
            j = j + 1;
        }
        assert(sl@.take(n as int) == sl@);
    }

    fn rendered(s: &str) -> (r: (String, usize))
        ensures
            r.0@ == render_spec(s@),
            r.1 == s@.len(),
    {
        let mut ret = String::new();
        let mut len: usize = 0;
        let total = s.unicode_len();
        let ghost mut seen: Seq<char> = Seq::empty();
        for ch in it: s.chars()
            invariant
                it.seq() == s@,
                total == s@.len(),
                seen == it.seq().take(it.index() as int),
                len == it.index(),
                ret@ == render_spec(seen),
        {
            proof {
                lemma_render_push(seen, ch);
            }
            Self::push_rendered(&mut ret, ch);
            len = len + 1;
            proof {
                seen = seen.push(ch);
            }
        }
        assert(seen == s@);
        (ret, len)
    }

    pub fn new(content: String) -> (r: Self)
        ensures
            r@ == content@,
    {
        let (render, len) = Self::rendered(content.as_str());
        Self { content, render_chars: len, render }
    }

    /// The line as it is drawn.
    pub fn render_str(&self) -> (r: &str)
        ensures
            r@ == render_spec(self@),
    {
        proof {
            use_type_invariant(self);
        }
        self.render.as_str()
    }

    /// The line's characters.
    pub fn content_str(&self) -> (r: &str)
        ensures
            r@ == self@,
    {
        self.content.as_str()
    }

    pub fn render_len(&self) -> (r: usize)
        ensures
            r == render_spec(self@).len(),
    {
        proof {
            use_type_invariant(self);
        }
        self.render.as_str().unicode_len()
    }

    /// A copy of the line.
    fn duplicate(&self) -> (r: Row)
        ensures
            r@ == self@,
    {
        proof {
            use_type_invariant(self);
        }
        Row { content: self.content.clone(), render: self.render.clone(), render_chars: self.render_chars }
    }

    pub fn content_len(&self) -> (r: usize)
        ensures
            r == self@.len(),
    {
        self.content.as_str().unicode_len()
    }

    /// The drawn width of the first `cx` characters.
    fn cx_to_rendered(&self, cx: u16) -> (r: u16)
        requires
            render_spec(self@.take(min(cx as int, self@.len() as int))).len() <= u16::MAX,
        ensures
            r == render_spec(self@.take(min(cx as int, self@.len() as int))).len(),
    {
        let chars = str_chars(self.content.as_str());
        let n = if (cx as usize) < chars.len() {
            cx as usize
        } else {
            chars.len()
        };
        let mut sum: u16 = 0;
        let mut i: usize = 0;
        while i < n
            invariant
                chars@ == self@,
                n == min(cx as int, self@.len() as int),
                i <= n,
                sum == render_spec(self@.take(i as int)).len(),
                render_spec(self@.take(n as int)).len() <= u16::MAX,
            decreases n - i,
        {
            proof {
                assert(self@.take(i + 1) == self@.take(i as int).push(self@[i as int]));
                lemma_render_push(self@.take(i as int), self@[i as int]);
                lemma_render_take_len(self@, i + 1, n as int);
            }
            let r = Self::rendered_char(chars[i]);
            sum = sum + chars16_len(&r) as u16;
            i = i + 1;
        }
        sum
    }

    /// Whether the drawn width of the first `cx` characters fits in a
    /// `u16`.
    fn width_fits(&self, cx: u16) -> (r: bool)
        ensures
            r == (render_spec(self@.take(min(cx as int, self@.len() as int))).len() <= u16::MAX),
    {
        let chars = str_chars(self.content.as_str());
        let n = if (cx as usize) < chars.len() {
            cx as usize
        } else {
            chars.len()
        };
        let mut sum: usize = 0;
        let mut i: usize = 0;
        while i < n
            invariant
                chars@ == self@,
                n == min(cx as int, self@.len() as int),
                n <= u16::MAX,
                i <= n,
                sum == render_spec(self@.take(i as int)).len(),
                sum <= 4 * i,
            decreases n - i,
        {
            proof {
                assert(self@.take(i + 1) == self@.take(i as int).push(self@[i as int]));
                lemma_render_push(self@.take(i as int), self@[i as int]);
            }
            let r = Self::rendered_char(chars[i]);
            sum = sum + chars16_len(&r);
            i = i + 1;
        }
        sum <= u16::MAX as usize
    }

    fn insert_char(&mut self, ch: char, cur_col: usize)
        requires
            cur_col <= old(self)@.len(),
        ensures
            final(self)@ == old(self)@.insert(cur_col as int, ch),
    {
        proof {
            use_type_invariant(&*self);
        }
        let len = self.content_len();
        if cur_col == len {
            let mut content = self.content.clone();
            push_char(&mut content, ch);
            let mut render = self.render.clone();
            Self::push_rendered(&mut render, ch);
            proof {
                lemma_render_push(self.content@, ch);
                assert(self.content@.insert(cur_col as int, ch) == self.content@.push(ch));
            }
            *self = Row { content, render, render_chars: self.render_chars };
        } else {
            let s = self.content.as_str();
            let mut content = s.substring_char(0, cur_col).to_owned();
            push_char(&mut content, ch);
            content.append(s.substring_char(cur_col, len));
            assert(content@ == old(self)@.insert(cur_col as int, ch));
            *self = Row::new(content);
        }
    }

    fn delete_char(&mut self, cur_col: usize)
        requires
            cur_col > 0,
            old(self)@.len() > 0,
        ensures
            final(self)@ == old(self)@.remove(min(cur_col as int, old(self)@.len() as int) - 1),
    {
        let len = self.content_len();
        let i = if cur_col < len {
            cur_col - 1
        } else {
            len - 1
        };
        let s = self.content.as_str();
        let mut content = s.substring_char(0, i).to_owned();
        content.append(s.substring_char(i + 1, len));
        assert(content@ == old(self)@.remove(i as int));
        *self = Row::new(content);
    }

    fn append_row(&mut self, other: Row)
        requires
            old(self)@.len() + other@.len() <= usize::MAX,
        ensures
            final(self)@ == old(self)@ + other@,
    {
        proof {
            use_type_invariant(&*self);
            use_type_invariant(&other);
            lemma_render_concat(self.content@, other.content@);
        }
        let content = self.content.clone().concat(other.content.as_str());
        let render = self.render.clone().concat(other.render.as_str());
        *self = Row { content, render, render_chars: self.render_chars + other.render_chars };
    }

    fn split(&mut self, cur_col: usize) -> (r: Row)
        ensures
            final(self)@ == old(self)@.take(min(cur_col as int, old(self)@.len() as int)),
            r@ == old(self)@.skip(min(cur_col as int, old(self)@.len() as int)),
    {
        let len = self.content_len();
        let i = if cur_col < len {
            cur_col
        } else {
            len
        };
        let s = self.content.as_str();
        let before = s.substring_char(0, i).to_owned();
        let after = s.substring_char(i, len).to_owned();
        *self = Row::new(before);
        Row::new(after)
    }
}

/// What a buffer holds, as the contracts see it.
pub struct BufferView {
    /// The characters of each line.
    pub rows: Seq<Seq<char>>,
    pub row_off: usize,
    pub col_off: usize,
    pub name: Seq<char>,
    pub path: Option<Seq<char>>,
    pub cur_line: usize,
    pub cur_col: usize,
    pub dirty: bool,
    /// Whether the cursor may stand just past the last character of a line.
    pub go_past_end: bool,
}

/// `a - b`, or 0 where that is negative.
pub open spec fn sat_sub(a: int, b: int) -> int {
    if a > b {
        a - b
    } else {
        0
    }
}

/// The characters from `start` up to `end`, or none when `start` is past
/// the end; `end` is cut at the end of the line.
pub open spec fn window(s: Seq<char>, start: int, end: int) -> Seq<char> {
    if start < s.len() {
        s.subrange(start, min(end, s.len() as int))
    } else {
        Seq::empty()
    }
}

/// A window can be cut out unless it starts inside the line and ends before
/// it starts.
pub open spec fn window_ok(s: Seq<char>, start: int, end: int) -> bool {
    !(start < s.len() && end < start)
}

/// The text that `save` writes: each line followed by a newline.
pub open spec fn save_spec(rows: Seq<Seq<char>>) -> Seq<char>
    decreases rows.len(),
{
    if rows.len() == 0 {
        Seq::empty()
    } else {
        save_spec(rows.drop_last()) + rows.last().push('\n')
    }
}


/// The drawn length of the line that `fit_pos` sizes the horizontal scroll
/// by: line `row_off + cy`, or line 0 when that index is not a `usize`.
pub open spec fn fit_row_len(v: BufferView, cy: i32) -> int {
    let idx = v.row_off + cy;
    let i = if 0 <= idx <= usize::MAX {
        idx
    } else {
        0
    };
    if i < v.rows.len() {
        render_spec(v.rows[i]).len() as int
    } else {
        0
    }
}

/// Scrolling along one axis so that the coordinate `c`, taken relative to
/// the offset `off`, lies in `[0, size)`: the new offset and coordinate,
/// before either is cut to the text.
pub open spec fn scroll_axis(off: int, c: int, size: int) -> (int, int) {
    let off1 = if c >= size {
        off + c - size + 1
    } else {
        off
    };
    let c1 = if c >= size {
        size - 1
    } else {
        c
    };
    if c1 < 0 {
        (sat_sub(off1, -c1), 0)
    } else {
        (off1, c1)
    }
}

/// `fit_pos` runs without failing: no coordinate is the most negative
/// `i32`, and a scroll distance fits in an `i32` and the scrolled offset in a
/// `usize`.
pub open spec fn fit_ok(v: BufferView, cx: i32, cy: i32, rows: u16, cols: u16) -> bool {
    &&& cx != i32::MIN
    &&& cy != i32::MIN
    &&& cy >= rows ==> cy - rows + 1 <= i32::MAX && v.row_off + cy - rows + 1 <= usize::MAX
    &&& cx >= cols ==> cx - cols + 1 <= i32::MAX && v.col_off + cx - cols + 1 <= usize::MAX
}

/// The buffer after `fit_pos`, and the position it returns.
pub open spec fn fit_spec(v: BufferView, cx: i32, cy: i32, rows: u16, cols: u16) -> (
    BufferView,
    (u16, u16),
) {
    let row_len = fit_row_len(v, cy);
    let (ro, y) = scroll_axis(v.row_off as int, cy as int, rows as int);
    let (co, x) = scroll_axis(v.col_off as int, cx as int, cols as int);
    let ro2 = min(ro, sat_sub(v.rows.len() as int, rows as int));
    let co2 = min(co, sat_sub(row_len, cols as int));
    let x2 = min(x, sat_sub(row_len, 1));
    let y2 = min(y, sat_sub(v.rows.len() as int, 1));
    (BufferView { row_off: ro2 as usize, col_off: co2 as usize, ..v }, (x2 as u16, y2 as u16))
}

/// One axis of `fit_pos`: the offset and the coordinate after scrolling.
fn scroll_axis_exec(off: usize, c: i32, size: u16) -> (r: (usize, i32))
    requires
        c != i32::MIN,
        c >= size ==> c - size + 1 <= i32::MAX && off + c - size + 1 <= usize::MAX,
    ensures
        (r.0 as int, r.1 as int) == scroll_axis(off as int, c as int, size as int),
        0 <= r.1,
        size > 0 ==> r.1 < size,
        r.1 <= u16::MAX,
{
    let mut off = off;
    let mut c = c;
    if c >= size as i32 {
        let scroll_by = c - size as i32 + 1;
        off = off + scroll_by as usize;
        c = size as i32 - 1;
    }
    if c < 0 {
        let scroll_by = -c;
        off = if off > scroll_by as usize {
            off - scroll_by as usize
        } else {
            0
        };
        c = 0;
    }
    (off, c)
}

/// The drawn width of the first `cx` characters of the cursor's line.
pub open spec fn cursor_line_width(v: BufferView, cx: u16) -> int {
    if v.cur_line < v.rows.len() {
        let row = v.rows[v.cur_line as int];
        render_spec(row.take(min(cx as int, row.len() as int))).len() as int
    } else {
        0
    }
}

/// The cursor's column and line relative to the offsets, as `scroll_to_fit`
/// computes them (through `isize`, cut to `i32`).
pub open spec fn rel_cx(v: BufferView) -> i32 {
    ((v.cur_col as isize) - (v.col_off as isize)) as i32
}

pub open spec fn rel_cy(v: BufferView) -> i32 {
    ((v.cur_line as isize) - (v.row_off as isize)) as i32
}

/// `scroll_to_fit` runs without failing.
pub open spec fn scroll_ok(v: BufferView, rows: u16, cols: u16) -> bool {
    &&& isize::MIN <= (v.cur_col as isize) - (v.col_off as isize) <= isize::MAX
    &&& isize::MIN <= (v.cur_line as isize) - (v.row_off as isize) <= isize::MAX
    &&& fit_ok(v, rel_cx(v), rel_cy(v), rows, cols)
}

/// The buffer after `scroll_to_fit`.
pub open spec fn scrolled(v: BufferView, rows: u16, cols: u16) -> BufferView {
    fit_spec(v, rel_cx(v), rel_cy(v), rows, cols).0
}

/// `cursor` runs without failing: the scroll runs, the cursor lies at or
/// after the new offsets and within `u16` of them, and its drawn column fits
/// in a `u16`.
pub open spec fn cursor_ok(v: BufferView, rows: u16, cols: u16) -> bool {
    let s = scrolled(v, rows, cols);
    &&& scroll_ok(v, rows, cols)
    &&& s.row_off <= v.cur_line
    &&& v.cur_line - s.row_off <= u16::MAX
    &&& s.col_off <= v.cur_col
    &&& v.cur_col - s.col_off <= u16::MAX
    &&& cursor_line_width(s, (v.cur_col - s.col_off) as u16) <= u16::MAX
}

impl BufferView {
    /// The number of characters in line `line`, or 0 past the last line.
    pub open spec fn row_len(self, line: int) -> nat {
        if 0 <= line < self.rows.len() {
            self.rows[line].len()
        } else {
            0
        }
    }

    /// The last column the cursor may take in line `line`.
    pub open spec fn max_col(self, line: int) -> int {
        if self.go_past_end {
            self.row_len(line) as int
        } else {
            sat_sub(self.row_len(line) as int, 1)
        }
    }

    /// The lines, with one empty line where there are none.
    pub open spec fn rows_or_empty_line(self) -> Seq<Seq<char>> {
        if self.rows.len() == 0 {
            seq![Seq::empty()]
        } else {
            self.rows
        }
    }

    /// The cursor stands on a line of `rows_or_empty_line`.
    pub open spec fn cursor_on_line(self) -> bool {
        self.cur_line < self.rows_or_empty_line().len()
    }

    /// `move_cursor(c)` does not overflow: moving down needs a next line
    /// index, moving right a next column.
    pub open spec fn move_ok(self, c: CursorDirection) -> bool {
        &&& c == CursorDirection::Down ==> self.cur_line < usize::MAX
        &&& c == CursorDirection::Right ==> self.cur_col < usize::MAX
    }

    /// After `move_cursor(c)`: one line up or down (within the lines), one
    /// column left or right, then the column cut to the line.
    pub open spec fn moved(self, c: CursorDirection) -> BufferView {
        let line = match c {
            CursorDirection::Up => sat_sub(self.cur_line as int, 1),
            CursorDirection::Down => min(self.cur_line + 1, sat_sub(self.rows.len() as int, 1)),
            _ => self.cur_line as int,
        };
        let col = match c {
            CursorDirection::Left => sat_sub(self.cur_col as int, 1),
            CursorDirection::Right => self.cur_col + 1,
            _ => self.cur_col as int,
        };
        BufferView { cur_line: line as usize, cur_col: min(col, self.max_col(line)) as usize, ..self }
    }

    /// After `set_position(line, col)`: the line cut to the number of lines,
    /// the column to that line.
    pub open spec fn positioned(self, line: usize, col: usize) -> BufferView {
        let l = min(line as int, self.rows.len() as int);
        BufferView { cur_line: l as usize, cur_col: min(col as int, self.max_col(l)) as usize, ..self }
    }

    /// `insert_char` runs without failing: the cursor is on a line (or on
    /// the empty line of an empty buffer), within it, and can move right.
    pub open spec fn insert_char_ok(self) -> bool {
        &&& self.cursor_on_line()
        &&& self.cur_col <= self.rows_or_empty_line()[self.cur_line as int].len()
        &&& self.cur_col < usize::MAX
    }

    /// After `insert_char(ch)`: `ch` inserted at the cursor, the buffer
    /// dirty, the cursor moved right.
    pub open spec fn with_char(self, ch: char) -> BufferView {
        let rows0 = self.rows_or_empty_line();
        let rows = rows0.update(
            self.cur_line as int,
            rows0[self.cur_line as int].insert(self.cur_col as int, ch),
        );
        let n = BufferView { rows, dirty: true, ..self };
        BufferView { cur_col: min(self.cur_col + 1, n.max_col(self.cur_line as int)) as usize, ..n }
    }

    /// Whether `delete_char` can run on this state without failing: nothing
    /// is owed where it returns early; elsewhere the cursor's line must exist,
    /// a merged line must fit, and a line that loses a character must have one.
    pub open spec fn delete_char_ok(self) -> bool {
        self.rows.len() == 0 || (self.cur_line == 0 && self.cur_col == 0) || {
            &&& self.cur_line < self.rows.len()
            &&& self.cur_col == 0 ==> self.rows[self.cur_line - 1].len() + self.rows[self.cur_line as int].len()
                <= usize::MAX
            &&& self.cur_col != 0 ==> self.rows[self.cur_line as int].len() > 0
        }
    }

    /// After `delete_char`: nothing at the very start; at a line's start the
    /// line joined to the one above; else the character before the cursor
    /// gone and the cursor moved left.
    pub open spec fn without_char(self) -> BufferView {
        let l = self.cur_line as int;
        if self.rows.len() == 0 || (self.cur_line == 0 && self.cur_col == 0) {
            self
        } else if self.cur_col == 0 {
            BufferView {
                rows: self.rows.update(l - 1, self.rows[l - 1] + self.rows[l]).remove(l),
                cur_line: (l - 1) as usize,
                cur_col: self.rows[l - 1].len() as usize,
                dirty: true,
                ..self
            }
        } else {
            let row = self.rows[l];
            let n = BufferView {
                rows: self.rows.update(l, row.remove(min(self.cur_col as int, row.len() as int) - 1)),
                dirty: true,
                ..self
            };
            BufferView { cur_col: min(self.cur_col - 1, n.max_col(l)) as usize, ..n }
        }
    }

    /// After `add_newline`: the cursor's line split at the cursor, the cursor
    /// at the start of the second part.
    pub open spec fn split_line(self) -> BufferView {
        let rows0 = self.rows_or_empty_line();
        let l = self.cur_line as int;
        let row = rows0[l];
        let i = min(self.cur_col as int, row.len() as int);
        BufferView {
            rows: rows0.update(l, row.take(i)).insert(l + 1, row.skip(i)),
            cur_line: (l + 1) as usize,
            cur_col: 0,
            dirty: true,
            ..self
        }
    }

    /// After `set_lines(line, lines)`: the lines inserted before line `line`,
    /// or nothing when `line` is past the end.
    pub open spec fn with_lines(self, line: usize, lines: Seq<Seq<char>>) -> BufferView {
        if line <= self.rows.len() {
            BufferView {
                rows: self.rows.take(line as int) + lines + self.rows.skip(line as int),
                dirty: true,
                ..self
            }
        } else {
            self
        }
    }
}


/// The lines after `delete_range(start, end)`: on one line the characters
/// `[start.col, end.col)` go; across lines the start line keeps what lies
/// before `start.col` and gains what lies from `end.col` on in the end line,
/// and the end line and every line strictly between the two go (lines are
/// inclusive, columns exclusive).
pub open spec fn delete_range_spec(rows: Seq<Seq<char>>, start: Location, end: Location) -> Seq<
    Seq<char>,
> {
    let sl = start.line_spec() as int;
    let el = end.line_spec() as int;
    let sc = start.col_spec() as int;
    let ec = end.col_spec() as int;
    if sl == el {
        let row = rows[sl];
        let new = if sc < row.len() {
            row.take(sc) + row.skip(min(ec, row.len() as int))
        } else {
            row
        };
        rows.update(sl, new)
    } else {
        let rs = rows[sl];
        let re = rows[el];
        let head = if sc < rs.len() {
            rs.take(sc)
        } else {
            rs
        };
        let tail = if ec < re.len() {
            re.skip(ec)
        } else {
            Seq::empty()
        };
        let r1 = rows.remove(el).update(sl, head + tail);
        r1.take(sl + 1) + r1.skip(el)
    }
}

/// What `RangeIter::next` yields from line `start.line`, and where it
/// continues: within one line the window `[start.col, end.col)`; on the
/// first of several lines its characters from `start.col` on (none when
/// `start.col` is at or past its end); on a later line, from its start.
pub open spec fn range_next_spec(rows: Seq<Seq<char>>, start: Location, end: Location) -> (
    Option<Seq<char>>,
    Location,
) {
    let l = start.line_spec() as int;
    if start.line_spec() > end.line_spec() || l >= rows.len() {
        (None, start)
    } else {
        let row = rows[l];
        let text = if start.line_spec() == end.line_spec() {
            window(row, start.col_spec() as int, end.col_spec() as int)
        } else if start.col_spec() < row.len() {
            row.skip(start.col_spec() as int)
        } else {
            Seq::empty()
        };
        (Some(text), Location::mk((l + 1) as usize, 0))
    }
}

/// `RangeIter::next` runs without failing: a range within one line must not
/// end before it starts.
pub open spec fn range_next_ok(rows: Seq<Seq<char>>, start: Location, end: Location) -> bool {
    let l = start.line_spec() as int;
    (start.line_spec() == end.line_spec() && l < rows.len()) ==> window_ok(
        rows[l],
        start.col_spec() as int,
        end.col_spec() as int,
    )
}

/// Everything a `RangeIter` yields: the text of lines `start.line` to
/// `end.line` that exist, the first from `start.col`, the last up to
/// `end.col`.
pub open spec fn range_spec(rows: Seq<Seq<char>>, start: Location, end: Location) -> Seq<Seq<char>>
    decreases end.line_spec() - start.line_spec(),
{
    let (first, next) = range_next_spec(rows, start, end);
    match first {
        None => Seq::empty(),
        Some(t) => if start.line_spec() < end.line_spec() {
            proof {
                Location::lemma_mk((start.line_spec() + 1) as usize, 0);
            }
            seq![t] + range_spec(rows, next, end)
        } else {
            seq![t]
        },
    }
}

/// The text between two locations of a buffer, one line at a time.
pub struct RangeIter<'a> {
    buf: &'a Buffer,
    start: Location,
    end: Location,
}

impl<'a> RangeIter<'a> {
    pub closed spec fn text(self) -> Seq<Seq<char>> {
        self.buf@.rows
    }

    pub closed spec fn start(self) -> Location {
        self.start
    }

    pub closed spec fn end(self) -> Location {
        self.end
    }

    /// The next line's part of the range, if any is left.
    pub fn next(&mut self) -> (r: Option<&'a str>)
        requires
            range_next_ok(old(self).text(), old(self).start(), old(self).end()),
        ensures
            ({
                let (t, next) = range_next_spec(old(self).text(), old(self).start(), old(self).end());
                &&& r.is_some() == t.is_some()
                &&& r matches Some(s) ==> Some(s@) == t
                &&& final(self).start() == next
                &&& r.is_some() ==> final(self).start().line_spec() == old(self).start().line_spec() + 1
                &&& final(self).end() == old(self).end()
                &&& final(self).text() == old(self).text()
            }),
    {
        if self.start.line() > self.end.line() {
            return None;
        }
        let nlines = self.buf.len();
        let ret = match self.buf.get_row(self.start.line()) {
            Some(ret) => ret,
            None => {
                return None;
            },
        };
        if self.start.line() == self.end.line() {
            let (a, b) = char_range(ret, self.start.col(), self.end.col());
            let ret = ret.substring_char(a, b);
            self.start = Location::new(self.start.line() + 1, 0);
            return Some(ret);
        }
        let n = ret.unicode_len();
        let idx = if self.start.col() < n {
            self.start.col()
        } else {
            n
        };
        self.start = Location::new(self.start.line() + 1, 0);
        Some(ret.substring_char(idx, n))
    }

    /// All the parts that are left, in order.
    pub fn collect_lines(self) -> (r: Vec<&'a str>)
        requires
            range_next_ok(self.text(), self.start(), self.end()),
        ensures
            r@.map_values(|s: &str| s@) == range_spec(self.text(), self.start(), self.end()),
    {
        let mut it = self;
        let mut out: Vec<&'a str> = Vec::new();
        loop
            invariant
                it.text() == self.text(),
                it.end() == self.end(),
                range_next_ok(it.text(), it.start(), it.end()),
                out@.map_values(|s: &str| s@) + range_spec(it.text(), it.start(), it.end())
                    == range_spec(self.text(), self.start(), self.end()),
            decreases it.end().line_spec() + 1 - it.start().line_spec(),
        {
            let ghost pre = it;
            let ghost l = pre.start().line_spec();
            match it.next() {
                Some(s) => {
                    proof {
                        Location::lemma_mk(it.start().line_spec(), 0);
                        if l == pre.end().line_spec() {
                            assert(range_spec(it.text(), it.start(), it.end()) == Seq::<
                                Seq<char>,
                            >::empty());
                        }
                        assert(out@.push(s).map_values(|s: &str| s@) =~= out@.map_values(
                            |s: &str| s@,
                        ).push(s@));
                    }
                    out.push(s);
                },
                None => {
                    return out;
                },
            }
        }
    }
}

/// An open file: its lines, the cursor and the scrolled window.
#[derive(Debug, PartialEq, Eq)]
pub struct Buffer {
    row: Vec<Row>,
    row_off: usize,
    col_off: usize,
    name: String,
    path: Option<String>,
    cur_line: usize,
    cur_col: usize,
    dirty: bool,
    go_past_end: bool,
}

pub open spec fn rows_view(rows: Seq<Row>) -> Seq<Seq<char>> {
    rows.map_values(|r: Row| r@)
}

pub open spec fn opt_view(s: Option<String>) -> Option<Seq<char>> {
    match s {
        Some(p) => Some(p@),
        None => None,
    }
}

impl View for Buffer {
    type V = BufferView;

    closed spec fn view(&self) -> BufferView {
        BufferView {
            rows: rows_view(self.row@),
            row_off: self.row_off,
            col_off: self.col_off,
            name: self.name@,
            path: opt_view(self.path),
            cur_line: self.cur_line,
            cur_col: self.cur_col,
            dirty: self.dirty,
            go_past_end: self.go_past_end,
        }
    }
}

impl Buffer {
    pub fn new() -> (r: Self)
        ensures
            r@ == (BufferView {
                rows: Seq::empty(),
                row_off: 0,
                col_off: 0,
                name: Seq::empty(),
                path: None,
                cur_line: 0,
                cur_col: 0,
                dirty: false,
                go_past_end: true,
            }),
    {
        let r = Self {
            row: Vec::new(),
            row_off: 0,
            col_off: 0,
            cur_line: 0,
            cur_col: 0,
            name: String::new(),
            path: None,
            dirty: false,
            go_past_end: true,
        };
        assert(rows_view(r.row@) == Seq::<Seq<char>>::empty());
        r
    }

    pub fn read(name: String, s: &str) -> (r: Self)
        ensures
            r@ == (BufferView {
                rows: lines_spec(s@),
                row_off: 0,
                col_off: 0,
                name: name@,
                path: Some(name@),
                cur_line: 0,
                cur_col: 0,
                dirty: false,
                go_past_end: true,
            }),
    {
        let lines = split_lines(s);
        let mut row: Vec<Row> = Vec::new();
        let n = lines.len();
        let mut i: usize = 0;
        while i < n
            invariant
                n == lines@.len(),
                i <= n,
                rows_view(row@) == strings_view(lines@).take(i as int),
            decreases n - i,
        {
            let r = Row::new(lines[i].clone());
            let ghost prev = row@;
            row.push(r);
            assert(rows_view(row@) =~= rows_view(prev).push(lines@[i as int]@));
            assert(strings_view(lines@).take(i + 1) =~= strings_view(lines@).take(i as int).push(
                lines@[i as int]@,
            ));
            i = i + 1;
        }
        assert(strings_view(lines@).take(n as int) == strings_view(lines@));
        Self {
            row,
            row_off: 0,
            col_off: 0,
            cur_col: 0,
            cur_line: 0,
            path: Some(name.clone()),
            name,
            dirty: false,
            go_past_end: true,
        }
    }

    /// mark as "not dirty"
    pub fn scrub(&mut self)
        ensures
            final(self)@ == (BufferView { dirty: false, ..old(self)@ }),
    {
        self.dirty = false;
    }

    pub fn save(&self) -> (r: String)
        ensures
            r@ == save_spec(self@.rows),
    {
        let mut ret = String::new();
        let n = self.row.len();
        let mut i: usize = 0;
        while i < n
            invariant
                n == self.row@.len(),
                i <= n,
                ret@ == save_spec(rows_view(self.row@).take(i as int)),
            decreases n - i,
        {
            ret.append(self.row[i].content_str());
            push_char(&mut ret, '\n');
            proof {
                let t = rows_view(self.row@).take(i + 1);
                assert(t.drop_last() == rows_view(self.row@).take(i as int));
            }
            i = i + 1;
        }
        assert(rows_view(self.row@).take(n as int) == rows_view(self.row@));
        ret
    }

    /// The number of characters in line `row`, or 0 past the last line.
    pub fn row_len(&self, row: usize) -> (r: usize)
        ensures
            r == self@.row_len(row as int),
    {
        if row < self.row.len() {
            self.row[row].content_len()
        } else {
            0
        }
    }

    /// The last column the cursor may take in line `line`.
    fn max_col(&self, line: usize) -> (r: usize)
        ensures
            r == self@.max_col(line as int),
    {
        let len = self.row_len(line);
        if self.go_past_end {
            len
        } else if len > 0 {
            len - 1
        } else {
            0
        }
    }

    pub fn get_row(&self, row: usize) -> (r: Option<&str>)
        ensures
            r.is_some() <==> row < self@.rows.len(),
            r matches Some(s) ==> s@ == self@.rows[row as int],
    {
        if row < self.row.len() {
            Some(self.row[row].content_str())
        } else {
            None
        }
    }

    pub fn get_row_render(&self, row: usize, width: usize) -> (r: Option<&str>)
        requires
            self@.row_off + row <= usize::MAX,
            self@.col_off + width <= usize::MAX,
        ensures
            r.is_some() <==> self@.row_off + row < self@.rows.len(),
            r matches Some(s) ==> s@ == window(
                render_spec(self@.rows[self@.row_off + row]),
                self@.col_off as int,
                self@.col_off + width,
            ),
    {
        let idx = self.row_off + row;
        if idx < self.row.len() {
            let render = self.row[idx].render_str();
            let start = self.col_off;
            let end = self.col_off + width;
            let (a, b) = char_range(render, start, end);
            Some(render.substring_char(a, b))
        } else {
            None
        }
    }

    pub fn remove_line(&mut self, line: usize) -> (r: String)
        requires
            line < old(self)@.rows.len(),
        ensures
            r@ == old(self)@.rows[line as int],
            final(self)@ == (BufferView { rows: old(self)@.rows.remove(line as int), ..old(self)@ }),
    {
        let r = self.row.remove(line);
        assert(rows_view(self.row@) == rows_view(old(self).row@).remove(line as int));
        r.content
    }

    pub fn is_empty(&self) -> (r: bool)
        ensures
            r == (self@.rows.len() == 0),
    {
        self.row.len() == 0
    }

    pub fn len(&self) -> (r: usize)
        ensures
            r == self@.rows.len(),
    {
        self.row.len()
    }

    pub fn set_go_past_end(&mut self, go_past_end: bool)
        ensures
            final(self)@ == (BufferView { go_past_end, ..old(self)@ }),
    {
        self.go_past_end = go_past_end;
    }

    pub fn move_cursor(&mut self, c: CursorDirection)
        requires
            old(self)@.move_ok(c),
        ensures
            final(self)@ == old(self)@.moved(c),
    {
        match c {
            CursorDirection::Up => {
                self.cur_line = if self.cur_line > 0 {
                    self.cur_line - 1
                } else {
                    0
                };
            },
            CursorDirection::Down => {
                let last = if self.row.len() > 0 {
                    self.row.len() - 1
                } else {
                    0
                };
                let next = self.cur_line + 1;
                self.cur_line = if next < last {
                    next
                } else {
                    last
                };
            },
            CursorDirection::Left => {
                self.cur_col = if self.cur_col > 0 {
                    self.cur_col - 1
                } else {
                    0
                };
            },
            CursorDirection::Right => {
                self.cur_col = self.cur_col + 1;
            },
        }
        let max = self.max_col(self.cur_line);
        if self.cur_col > max {
            self.cur_col = max;
        }
    }

    /// returns (line, col)
    pub fn position(&self) -> (r: Location)
        ensures
            r == Location::mk(self@.cur_line, self@.cur_col),
    {
        Location::new(self.cur_line, self.cur_col)
    }

    pub fn set_position(&mut self, line: usize, col: usize)
        ensures
            final(self)@ == old(self)@.positioned(line, col),
    {
        let len = self.row.len();
        self.cur_line = if line < len {
            line
        } else {
            len
        };
        let max = self.max_col(self.cur_line);
        self.cur_col = if col < max {
            col
        } else {
            max
        };
    }

    pub fn insert_char(&mut self, ch: char)
        requires
            old(self)@.insert_char_ok(),
        ensures
            final(self)@ == old(self)@.with_char(ch),
    {
        self.dirty = true;
        if self.row.len() == 0 {
            self.row.push(Row::new(String::new()));
            assert(rows_view(self.row@) =~= seq![Seq::<char>::empty()]);
        }
        let ghost before = self.row@;
        self.row[self.cur_line].insert_char(ch, self.cur_col);
        assert(rows_view(self.row@) =~= rows_view(before).update(
            self.cur_line as int,
            rows_view(before)[self.cur_line as int].insert(self.cur_col as int, ch),
        ));
        self.move_cursor(CursorDirection::Right);
    }

    /// Deletes the character before the cursor, joining the line to the one
    /// above when the cursor is at its start.
    pub fn delete_char(&mut self)
        requires
            old(self)@.delete_char_ok(),
        ensures
            final(self)@ == old(self)@.without_char(),
    {
        if self.row.len() == 0 || (self.cur_line == 0 && self.cur_col == 0) {
            return;
        }
        self.dirty = true;
        let ghost before = self.row@;
        if self.cur_col == 0 && self.cur_line > 0 {
            let removed = self.row.remove(self.cur_line);
            self.cur_col = self.row[self.cur_line - 1].content_len();
            self.row[self.cur_line - 1].append_row(removed);
            assert(rows_view(self.row@) =~= rows_view(before).update(
                self.cur_line - 1,
                rows_view(before)[self.cur_line - 1] + rows_view(before)[self.cur_line as int],
            ).remove(self.cur_line as int));
            self.cur_line = self.cur_line - 1;
            return;
        }
        self.row[self.cur_line].delete_char(self.cur_col);
        assert(rows_view(self.row@) =~= rows_view(before).update(
            self.cur_line as int,
            rows_view(before)[self.cur_line as int].remove(
                min(self.cur_col as int, rows_view(before)[self.cur_line as int].len() as int) - 1,
            ),
        ));
        self.move_cursor(CursorDirection::Left)
    }

    /// Splits the cursor's line at the cursor and moves to the start of the
    /// new line.
    pub fn add_newline(&mut self)
        requires
            old(self)@.cursor_on_line(),
        ensures
            final(self)@ == old(self)@.split_line(),
    {
        if self.row.len() == 0 {
            self.row.push(Row::new(String::new()));
            assert(rows_view(self.row@) =~= seq![Seq::<char>::empty()]);
        }
        self.dirty = true;
        let ghost before = self.row@;
        let next = self.row[self.cur_line].split(self.cur_col);
        let ghost mid = self.row@;
        self.row.insert(self.cur_line + 1, next);
        proof {
            let rb = rows_view(before)[self.cur_line as int];
            let i = min(self.cur_col as int, rb.len() as int);
            assert(rows_view(mid) =~= rows_view(before).update(self.cur_line as int, rb.take(i)));
            assert(rows_view(self.row@) =~= rows_view(mid).insert(self.cur_line + 1, rb.skip(i)));
        }
        self.cur_line = self.cur_line + 1;
        self.cur_col = 0;
    }

    pub fn path(&self) -> (r: Option<&str>)
        ensures
            r.is_some() == self@.path.is_some(),
            r matches Some(p) ==> Some(p@) == self@.path,
    {
        match &self.path {
            Some(p) => Some(p.as_str()),
            None => None,
        }
    }

    pub fn num_lines(&self) -> (r: usize)
        ensures
            r == self@.rows.len(),
    {
        self.row.len()
    }

    pub fn is_dirty(&self) -> (r: bool)
        ensures
            r == self@.dirty,
    {
        self.dirty
    }

    pub fn set_path(&mut self, path: String)
        ensures
            final(self)@ == (BufferView { path: Some(path@), ..old(self)@ }),
    {
        self.path = Some(path);
    }

    pub fn set_name(&mut self, name: String)
        ensures
            final(self)@ == (BufferView { name: name@, ..old(self)@ }),
    {
        self.name = name;
    }

    /// cx, cy are the coordinates in the current window.
    ///
    /// rows, cols are the dimensions of the screen.
    ///
    /// returns the new virtual coordinates.
    pub fn fit_pos(&mut self, cx: i32, cy: i32, rows: u16, cols: u16) -> (r: (u16, u16))
        requires
            fit_ok(old(self)@, cx, cy, rows, cols),
        ensures
            (final(self)@, r) == fit_spec(old(self)@, cx, cy, rows, cols),
            cols > 0 ==> r.0 < cols,
            rows > 0 ==> r.1 < rows,
    {
        let idx = self.fit_row_index(cy);
        let row_len = if idx < self.row.len() {
            self.row[idx].render_len()
        } else {
            0
        };
        let len = self.row.len();
        let max_row_off = if len > rows as usize {
            len - rows as usize
        } else {
            0
        };
        let max_col_off = if row_len > cols as usize {
            row_len - cols as usize
        } else {
            0
        };

        let (row_off, cy) = scroll_axis_exec(self.row_off, cy, rows);
        let (col_off, cx) = scroll_axis_exec(self.col_off, cx, cols);
        self.row_off = row_off;
        self.col_off = col_off;
        if self.row_off > max_row_off {
            self.row_off = max_row_off;
        }
        if self.col_off > max_col_off {
            self.col_off = max_col_off;
        }
        let last_col = if row_len > 0 {
            row_len - 1
        } else {
            0
        };
        let last_line = if len > 0 {
            len - 1
        } else {
            0
        };
        let x = if (cx as usize) < last_col {
            cx as usize
        } else {
            last_col
        };
        let y = if (cy as usize) < last_line {
            cy as usize
        } else {
            last_line
        };
        (x as u16, y as u16)
    }

    /// The index of the line that `fit_pos` sizes the horizontal scroll by.
    fn fit_row_index(&self, cy: i32) -> (r: usize)
        ensures
            r == (if 0 <= self@.row_off + cy <= usize::MAX {
                self@.row_off + cy
            } else {
                0
            }),
    {
        if cy >= 0 {
            if self.row_off <= usize::MAX - (cy as usize) {
                self.row_off + cy as usize
            } else {
                0
            }
        } else {
            let back = (-(cy as i64)) as usize;
            if self.row_off >= back {
                self.row_off - back
            } else {
                0
            }
        }
    }

    fn cx_to_rendered(&self, cx: u16) -> (r: u16)
        requires
            cursor_line_width(self@, cx) <= u16::MAX,
        ensures
            r == cursor_line_width(self@, cx),
    {
        if self.cur_line < self.row.len() {
            self.row[self.cur_line].cx_to_rendered(cx)
        } else {
            0
        }
    }

    fn scroll_to_fit(&mut self, rows: u16, cols: u16)
        requires
            scroll_ok(old(self)@, rows, cols),
        ensures
            final(self)@ == scrolled(old(self)@, rows, cols),
    {
        let cx = (self.cur_col as isize - self.col_off as isize) as i32;
        let cy = (self.cur_line as isize - self.row_off as isize) as i32;
        self.fit_pos(cx, cy, rows, cols);
    }

    /// where to place the cursor (rows x cols coordinates)
    /// returns (y, x)
    pub fn cursor(&mut self, rows: u16, cols: u16) -> (r: (u16, u16))
        requires
            cursor_ok(old(self)@, rows, cols),
        ensures
            final(self)@ == scrolled(old(self)@, rows, cols),
            r == ((old(self)@.cur_line - final(self)@.row_off) as u16, cursor_line_width(
                final(self)@,
                (old(self)@.cur_col - final(self)@.col_off) as u16,
            ) as u16),
    {
        self.scroll_to_fit(rows, cols);
        (
            (self.cur_line - self.row_off) as u16,
            self.cx_to_rendered((self.cur_col - self.col_off) as u16),
        )
    }

    /// behaves like `nvim_buf_get_text`
    /// lines inclusive, columns exclusive
    pub fn get_range<'a>(&'a self, start: Location, end: Location) -> (r: RangeIter<'a>)
        ensures
            r.text() == self@.rows,
            r.start() == start,
            r.end() == end,
    {
        RangeIter { buf: self, start, end }
    }

    /// lines inclusive, columns exclusive
    pub fn delete_range(&mut self, start: Location, end: Location)
        requires
            loc_lt(start, end),
            start.line_spec() < old(self)@.rows.len(),
            end.line_spec() < old(self)@.rows.len(),
        ensures
            final(self)@ == (BufferView {
                rows: delete_range_spec(old(self)@.rows, start, end),
                ..old(self)@
            }),
    {
        let sl = start.line();
        let el = end.line();
        if sl == el {
            let s = self.row[sl].content_str();
            let n = s.unicode_len();
            if start.col() < n {
                let e = if end.col() < n {
                    end.col()
                } else {
                    n
                };
                let mut content = s.substring_char(0, start.col()).to_owned();
                content.append(s.substring_char(e, n));
                let ghost before = self.row@;
                self.row.set(sl, Row::new(content));
                assert(rows_view(self.row@) =~= delete_range_spec(rows_view(before), start, end));
            } else {
                assert(rows_view(self.row@) =~= delete_range_spec(rows_view(self.row@), start, end));
            }
            return;
        }
        let ghost before = rows_view(self.row@);
        let end_row = self.row.remove(el);
        let e = end_row.content_str();
        let en = e.unicode_len();
        let tail = if end.col() < en {
            e.substring_char(end.col(), en).to_owned()
        } else {
            String::new()
        };
        let s = self.row[sl].content_str();
        let sn = s.unicode_len();
        let head = if start.col() < sn {
            s.substring_char(0, start.col()).to_owned()
        } else {
            s.to_owned()
        };
        let content = head.concat(tail.as_str());
        self.row.set(sl, Row::new(content));
        let ghost r1 = rows_view(self.row@);
        assert(r1 =~= before.remove(el as int).update(
            sl as int,
            delete_range_spec(before, start, end)[sl as int],
        ));
        if el == sl + 1 {
            assert(r1 =~= delete_range_spec(before, start, end));
            return;
        }
        let count = el - (sl + 1);
        let mut k: usize = 0;
        while k < count
            invariant
                count == el - (sl + 1),
                sl + 1 < el,
                k <= count,
                el <= r1.len(),
                self.row@.len() == r1.len() - k,
                rows_view(self.row@) == r1.take(sl + 1) + r1.skip(sl + 1 + k),
                self@ == (BufferView { rows: self@.rows, ..old(self)@ }),
            decreases count - k,
        {
            let ghost prev = rows_view(self.row@);
            self.row.remove(sl + 1);
            assert(rows_view(self.row@) =~= prev.remove(sl + 1));
            assert(rows_view(self.row@) =~= r1.take(sl + 1) + r1.skip(sl + 1 + k + 1));
            k = k + 1;
        }
    }

    pub fn name(&self) -> (r: &str)
        ensures
            r@ == self@.name,
    {
        self.name.as_str()
    }

    /// Inserts `lines` before line `line`; a line index past the end leaves
    /// the buffer as it was.
    pub fn set_lines(&mut self, line: usize, lines: Vec<String>)
        ensures
            final(self)@ == old(self)@.with_lines(line, strings_view(lines@)),
    {
        if line > self.row.len() {
            return;
        }
        self.dirty = true;
        let n = lines.len();
        let mut i: usize = 0;
        let ghost orig = rows_view(self.row@);
        let ghost pre = self@;
        while i < n
            invariant
                n == lines@.len(),
                i <= n,
                line <= orig.len(),
                orig == pre.rows,
                self.row@.len() == orig.len() + i,
                self@ == (BufferView { rows: self@.rows, ..pre }),
                rows_view(self.row@) == orig.take(line as int) + strings_view(lines@).take(i as int)
                    + orig.skip(line as int),
            decreases n - i,
        {
            let r = Row::new(lines[i].clone());
            let ghost prev = rows_view(self.row@);
            let cur_len = self.row.len();
            assert(line + i <= cur_len);
            self.row.insert(line + i, r);
            assert(strings_view(lines@).take(i + 1) =~= strings_view(lines@).take(i as int).push(
                lines@[i as int]@,
            ));
            assert(rows_view(self.row@) =~= prev.insert(line + i, lines@[i as int]@));
            assert(rows_view(self.row@) =~= orig.take(line as int) + strings_view(lines@).take(
                i + 1,
            ) + orig.skip(line as int));
            i = i + 1;
        }
        assert(strings_view(lines@).take(n as int) =~= strings_view(lines@));
    }
}

/// The character positions `[start, end)` of `s` clamped to its length, or
/// an empty range at 0 when `start` is not inside `s`.
fn char_range(s: &str, start: usize, end: usize) -> (r: (usize, usize))
    requires
        window_ok(s@, start as int, end as int),
    ensures
        r.0 <= r.1 <= s@.len(),
        s@.subrange(r.0 as int, r.1 as int) == window(s@, start as int, end as int),
{
    let n = s.unicode_len();
    if start < n {
        let e = if end < n {
            end
        } else {
            n
        };
        (start, e)
    } else {
        (0, 0)
    }
}

impl Default for Buffer {
    fn default() -> (r: Self)
        ensures
            r@ == (BufferView {
                rows: Seq::empty(),
                row_off: 0,
                col_off: 0,
                name: Seq::empty(),
                path: None,
                cur_line: 0,
                cur_col: 0,
                dirty: false,
                go_past_end: true,
            }),
    {
        Self::new()
    }
}

impl Buffer {
    /// A copy of the buffer.
    pub fn duplicate(&self) -> (r: Self)
        ensures
            r@ == self@,
    {
        let mut rows: Vec<Row> = Vec::new();
        let n = self.row.len();
        let mut i: usize = 0;
        while i < n
            invariant
                n == self.row@.len(),
                i <= n,
                rows_view(rows@) == rows_view(self.row@).take(i as int),
            decreases n - i,
        {
            let r = self.row[i].duplicate();
            let ghost before = rows@;
            assert(rows_view(before).len() == before.len());
            rows.push(r);
            assert(rows@ == before.push(r));
            assert forall|j: int| 0 <= j <= i implies #[trigger] rows_view(rows@)[j] == rows_view(
                self.row@,
            )[j] by {
                if j < i {
                    assert(rows@[j] == before[j]);
                    assert(rows_view(before)[j] == rows_view(self.row@).take(i as int)[j]);
                }
            }
            i = i + 1;
            assert(rows_view(rows@) =~= rows_view(self.row@).take(i as int));
        }
        assert(rows_view(self.row@).take(n as int) =~= rows_view(self.row@));
        let path = match &self.path {
            Some(p) => Some(p.clone()),
            None => None,
        };
        Buffer {
            row: rows,
            row_off: self.row_off,
            col_off: self.col_off,
            name: self.name.clone(),
            path,
            cur_line: self.cur_line,
            cur_col: self.cur_col,
            dirty: self.dirty,
            go_past_end: self.go_past_end,
        }
    }

    /// Whether `move_cursor(c)` can run.
    pub fn can_move(&self, c: CursorDirection) -> (r: bool)
        ensures
            r == self@.move_ok(c),
    {
        match c {
            CursorDirection::Down => self.cur_line < usize::MAX,
            CursorDirection::Right => self.cur_col < usize::MAX,
            _ => true,
        }
    }

    /// Whether the cursor stands on a line (or on the one empty line of an
    /// empty buffer); `add_newline` needs it.
    pub fn cursor_on_line(&self) -> (r: bool)
        ensures
            r == self@.cursor_on_line(),
    {
        if self.row.len() == 0 {
            self.cur_line == 0
        } else {
            self.cur_line < self.row.len()
        }
    }

    /// Whether `insert_char` can run.
    pub fn can_insert_char(&self) -> (r: bool)
        ensures
            r == self@.insert_char_ok(),
    {
        self.cursor_on_line() && self.cur_col <= self.row_len(self.cur_line) && self.cur_col
            < usize::MAX
    }

    /// Whether `delete_char` can run.
    pub fn can_delete_char(&self) -> (r: bool)
        ensures
            r == self@.delete_char_ok(),
    {
        let n = self.row.len();
        if n == 0 || (self.cur_line == 0 && self.cur_col == 0) {
            return true;
        }
        if self.cur_line >= n {
            return false;
        }
        if self.cur_col == 0 {
            let above = self.row_len(self.cur_line - 1);
            let here = self.row_len(self.cur_line);
            above <= usize::MAX - here
        } else {
            self.row_len(self.cur_line) > 0
        }
    }
}

impl Buffer {
    /// Whether `scroll_to_fit(rows, cols)` can run.
    fn can_scroll(&self, rows: u16, cols: u16) -> (r: bool)
        ensures
            r == scroll_ok(self@, rows, cols),
    {
        let dx: i128 = (self.cur_col as isize) as i128 - (self.col_off as isize) as i128;
        let dy: i128 = (self.cur_line as isize) as i128 - (self.row_off as isize) as i128;
        if dx < isize::MIN as i128 || dx > isize::MAX as i128 || dy < isize::MIN as i128 || dy
            > isize::MAX as i128 {
            return false;
        }
        let cx = (self.cur_col as isize - self.col_off as isize) as i32;
        let cy = (self.cur_line as isize - self.row_off as isize) as i32;
        if cx == i32::MIN || cy == i32::MIN {
            return false;
        }
        let y_ok = (cy as i128) < (rows as i128) || ((cy as i128) - (rows as i128) + 1 <= i32::MAX as i128
            && (self.row_off as i128) + (cy as i128) - (rows as i128) + 1 <= usize::MAX as i128);
        let x_ok = (cx as i128) < (cols as i128) || ((cx as i128) - (cols as i128) + 1 <= i32::MAX as i128
            && (self.col_off as i128) + (cx as i128) - (cols as i128) + 1 <= usize::MAX as i128);
        y_ok && x_ok
    }

    /// Whether `cursor(rows, cols)` can run.
    pub fn can_place_cursor(&self, rows: u16, cols: u16) -> (r: bool)
        ensures
            r == cursor_ok(self@, rows, cols),
    {
        if !self.can_scroll(rows, cols) {
            return false;
        }
        let mut s = self.duplicate();
        s.scroll_to_fit(rows, cols);
        if !(s.row_off <= self.cur_line && self.cur_line - s.row_off <= u16::MAX as usize && s.col_off
            <= self.cur_col && self.cur_col - s.col_off <= u16::MAX as usize) {
            return false;
        }
        let cx = (self.cur_col - s.col_off) as u16;
        if s.cur_line < s.row.len() {
            s.row[s.cur_line].width_fits(cx)
        } else {
            true
        }
    }
}

impl Buffer {
    /// The first line shown.
    pub fn row_offset(&self) -> (r: usize)
        ensures
            r == self@.row_off,
    {
        self.row_off
    }

    /// The first drawn column shown.
    pub fn col_offset(&self) -> (r: usize)
        ensures
            r == self@.col_off,
    {
        self.col_off
    }
}

/// Saving lines ends each with a newline: the lines split off so far,
/// followed by the open line, give back the text.
proof fn lemma_save_lines_acc(s: Seq<char>)
    requires
        !s.contains('\r'),
    ensures
        save_spec(lines_acc(s).0) + lines_acc(s).1 == s,
        !lines_acc(s).1.contains('\r'),
        lines_acc(s).1.len() == 0 ==> (s.len() == 0 || s.last() == '\n'),
        lines_acc(s).1.len() > 0 ==> s.last() != '\n',
    decreases s.len(),
{
    if s.len() > 0 {
        let p = s.drop_last();
        assert(!p.contains('\r')) by {
            if p.contains('\r') {
                let i = choose|i: int| 0 <= i < p.len() && p[i] == '\r';
                assert(s[i] == '\r');
            }
        }
        lemma_save_lines_acc(p);
        let (done, cur) = lines_acc(p);
        if s.last() == '\n' {
            assert(strip_cr(cur) == cur) by {
                if cur.len() > 0 {
                    assert(cur[cur.len() - 1] != '\r');
                }
            }
            assert(done.push(cur).drop_last() == done);
            assert(save_spec(done.push(cur)) == save_spec(done) + cur.push('\n'));
            assert(save_spec(done) + cur.push('\n') == (save_spec(done) + cur).push('\n'));
            assert(p.push('\n') == s);
        } else {
            assert(save_spec(done) + cur.push(s.last()) == (save_spec(done) + cur).push(s.last()));
            assert(p.push(s.last()) == s);
            assert(!cur.push(s.last()).contains('\r')) by {
                if cur.push(s.last()).contains('\r') {
                    let i = choose|i: int| 0 <= i < cur.push(s.last()).len() && cur.push(s.last())[i] == '\r';
                    if i < cur.len() {
                        assert(cur[i] == '\r');
                    } else {
                        assert(s[s.len() - 1] == '\r');
                    }
                }
            }
        }
    }
}

/// Reading a text without carriage returns into lines and saving them gives
/// the text back, with a newline added at the end where it had none.
pub proof fn law_save_after_read(s: Seq<char>)
    requires
        !s.contains('\r'),
    ensures
        save_spec(lines_spec(s)) == (if s.len() == 0 || s.last() == '\n' {
            s
        } else {
            s.push('\n')
        }),
{
    lemma_save_lines_acc(s);
    let (done, cur) = lines_acc(s);
    if cur.len() > 0 {
        assert(done.push(cur).drop_last() == done);
        assert(save_spec(done) + cur.push('\n') == (save_spec(done) + cur).push('\n'));
    } else {
        assert(save_spec(done) + cur == save_spec(done));
    }
}

/// Backspace undoes typing a character: after `insert_char` then
/// `delete_char` the lines and the cursor are as before. This needs the
/// cursor inside a line, and, where the cursor may not pass the end of a
/// line, not at its end (there the typed character is not the one left of
/// the cursor).
pub proof fn law_delete_char_undoes_insert_char(b: BufferView, ch: char)
    requires
        b.cur_line < b.rows.len(),
        b.cur_col <= b.rows[b.cur_line as int].len(),
        b.cur_col < usize::MAX,
        b.go_past_end || b.cur_col < b.rows[b.cur_line as int].len(),
    ensures
        b.insert_char_ok(),
        b.with_char(ch).delete_char_ok(),
        b.with_char(ch).without_char().rows == b.rows,
        b.with_char(ch).without_char().cur_line == b.cur_line,
        b.with_char(ch).without_char().cur_col == b.cur_col,
{
    let l = b.cur_line as int;
    let row = b.rows[l];
    let a = b.with_char(ch);
    assert(a.rows[l] == row.insert(b.cur_col as int, ch));
    assert(a.cur_col == b.cur_col + 1);
    assert(a.rows[l].remove(b.cur_col as int) =~= row);
    assert(a.rows.update(l, row) =~= b.rows);
}

/// Backspace at the start of a line undoes splitting it: after
/// `add_newline` then `delete_char` the lines and the cursor are as before.
pub proof fn law_delete_char_joins_split_line(b: BufferView)
    requires
        b.cur_line < b.rows.len(),
        b.cur_line < usize::MAX,
        b.cur_col <= b.rows[b.cur_line as int].len(),
        b.rows[b.cur_line as int].len() <= usize::MAX,
    ensures
        b.cursor_on_line(),
        b.split_line().delete_char_ok(),
        b.split_line().without_char().rows == b.rows,
        b.split_line().without_char().cur_line == b.cur_line,
        b.split_line().without_char().cur_col == b.cur_col,
{
    let l = b.cur_line as int;
    let row = b.rows[l];
    let c = b.cur_col as int;
    let a = b.split_line();
    assert(a.rows[l] == row.take(c));
    assert(a.rows[l + 1] == row.skip(c));
    assert(row.take(c) + row.skip(c) =~= row);
    assert(a.rows.update(l, row).remove(l + 1) =~= b.rows);
}

/// Deleting within one line, from a column inside it, takes out exactly
/// the characters from `start.col` up to `end.col` (or the line's end): the
/// line gets shorter by that many, keeps what came before, and continues
/// with what came after; every other line stays.
pub proof fn law_delete_range_in_line(rows: Seq<Seq<char>>, start: Location, end: Location)
    requires
        loc_lt(start, end),
        start.line_spec() == end.line_spec(),
        start.line_spec() < rows.len(),
        start.col_spec() < rows[start.line_spec() as int].len(),
    ensures
        ({
            let l = start.line_spec() as int;
            let row = rows[l];
            let sc = start.col_spec() as int;
            let e = min(end.col_spec() as int, row.len() as int);
            let r2 = delete_range_spec(rows, start, end);
            &&& r2.len() == rows.len()
            &&& forall|i: int| 0 <= i < rows.len() && i != l ==> #[trigger] r2[i] == rows[i]
            &&& r2[l].len() == row.len() - (e - sc)
            &&& forall|j: int| 0 <= j < sc ==> #[trigger] r2[l][j] == row[j]
            &&& forall|j: int| sc <= j < r2[l].len() ==> #[trigger] r2[l][j] == row[j + (e - sc)]
        }),
{
}

/// Deleting across lines joins the start line, up to `start.col`, to the
/// end line, from `end.col` on, and takes out the end line and every line
/// between: there are `end.line - start.line` lines fewer, the lines before
/// the start line stay, and the lines after the end line move up.
pub proof fn law_delete_range_across_lines(rows: Seq<Seq<char>>, start: Location, end: Location)
    requires
        start.line_spec() < end.line_spec(),
        end.line_spec() < rows.len(),
    ensures
        ({
            let sl = start.line_spec() as int;
            let el = end.line_spec() as int;
            let rs = rows[sl];
            let re = rows[el];
            let h = min(start.col_spec() as int, rs.len() as int);
            let t = min(end.col_spec() as int, re.len() as int);
            let r2 = delete_range_spec(rows, start, end);
            &&& r2.len() == rows.len() - (el - sl)
            &&& forall|i: int| 0 <= i < sl ==> #[trigger] r2[i] == rows[i]
            &&& forall|i: int| sl < i < r2.len() ==> #[trigger] r2[i] == rows[i + (el - sl)]
            &&& r2[sl].len() == h + (re.len() - t)
            &&& forall|j: int| 0 <= j < h ==> #[trigger] r2[sl][j] == rs[j]
            &&& forall|j: int| h <= j < r2[sl].len() ==> #[trigger] r2[sl][j] == re[j - h + t]
        }),
{
    let sl = start.line_spec() as int;
    let el = end.line_spec() as int;
    let r2 = delete_range_spec(rows, start, end);
    assert forall|i: int| sl < i < r2.len() implies #[trigger] r2[i] == rows[i + (el - sl)] by {
        assert(r2[i] == rows.remove(el)[i + (el - sl) - 1]);
    }
}

/// How many tabs `s` holds.
pub open spec fn count_tabs(s: Seq<char>) -> nat
    decreases s.len(),
{
    if s.len() == 0 {
        0
    } else {
        count_tabs(s.drop_last()) + (if s.last() == '\t' {
            1nat
        } else {
            0nat
        })
    }
}

/// How many ASCII control characters other than tab `s` holds.
pub open spec fn count_controls(s: Seq<char>) -> nat
    decreases s.len(),
{
    if s.len() == 0 {
        0
    } else {
        count_controls(s.drop_last()) + (if s.last() != '\t' && is_ascii_control_spec(s.last()) {
            1nat
        } else {
            0nat
        })
    }
}

/// A line is drawn three columns wider for each tab (four spaces) and two
/// wider for each other control character (three characters).
pub proof fn law_render_width(s: Seq<char>)
    ensures
        render_spec(s).len() == s.len() + 3 * count_tabs(s) + 2 * count_controls(s),
    decreases s.len(),
{
    if s.len() > 0 {
        law_render_width(s.drop_last());
    }
}

/// A line without tabs or control characters is drawn as it is.
pub proof fn law_render_plain(s: Seq<char>)
    requires
        forall|i: int| 0 <= i < s.len() ==> !is_ascii_control_spec(#[trigger] s[i]),
    ensures
        render_spec(s) == s,
    decreases s.len(),
{
    if s.len() > 0 {
        let t = s.drop_last();
        assert forall|i: int| 0 <= i < t.len() implies !is_ascii_control_spec(#[trigger] t[i]) by {
            assert(t[i] == s[i]);
        }
        law_render_plain(t);
        assert(s[s.len() - 1] != '\t') by {
            assert(!is_ascii_control_spec(s[s.len() - 1]));
        }
        assert(t.push(s.last()) =~= s);
    }
}

/// The value of a lower-case hexadecimal digit.
pub open spec fn hex_value(c: char) -> int {
    if '0' <= c <= '9' {
        c as int - '0' as int
    } else {
        c as int - 'a' as int + 10
    }
}

/// A lower-case hexadecimal digit.
pub open spec fn is_hex_digit(c: char) -> bool {
    ('0' <= c <= '9') || ('a' <= c <= 'f')
}

/// A control character other than tab is drawn as `X` and two hexadecimal
/// digits whose value is its code.
pub proof fn law_render_control(c: char)
    requires
        is_ascii_control_spec(c),
        c != '\t',
    ensures
        rendered_char_spec(c).len() == 3,
        rendered_char_spec(c)[0] == 'X',
        is_hex_digit(rendered_char_spec(c)[1]),
        is_hex_digit(rendered_char_spec(c)[2]),
        hex_value(rendered_char_spec(c)[1]) * 16 + hex_value(rendered_char_spec(c)[2]) == c as u32,
{
    let x = c as u8;
    assert(x as u32 == c as u32);
    let hi = x >> 4;
    let lo = x & 0xf;
    assert(hi < 16 && lo < 16 && x == hi * 16 + lo) by (bit_vector)
        requires
            hi == x >> 4,
            lo == x & 0xf,
    ;
}

/// The pieces a range yields: one per line from the start line to the end
/// line. On one line the piece is the characters from `start.col` up to
/// `end.col` (cut at the line's end, none when `start.col` is past it).
/// Across lines the first piece is the start line from `start.col` on, the
/// lines between come whole, and the last piece is the end line up to
/// `end.col`.
pub proof fn law_range_pieces(rows: Seq<Seq<char>>, start: Location, end: Location)
    requires
        start.line_spec() <= end.line_spec() < rows.len(),
        start.line_spec() == end.line_spec() ==> start.col_spec() <= end.col_spec(),
    ensures
        ({
            let sl = start.line_spec() as int;
            let el = end.line_spec() as int;
            let sc = start.col_spec() as int;
            let ec = end.col_spec() as int;
            let r = range_spec(rows, start, end);
            let rs = rows[sl];
            let re = rows[el];
            &&& r.len() == el - sl + 1
            &&& forall|j: int| 0 <= j < r[0].len() ==> #[trigger] r[0][j] == rs[sc + j]
            &&& sl == el ==> r[0].len() == (if sc < rs.len() {
                min(ec, rs.len() as int) - sc
            } else {
                0
            })
            &&& sl < el ==> r[0].len() == rs.len() - min(sc, rs.len() as int)
            &&& sl < el ==> r[el - sl].len() == min(ec, re.len() as int)
            &&& sl < el ==> forall|j: int|
                0 <= j < r[el - sl].len() ==> #[trigger] r[el - sl][j] == re[j]
            &&& forall|i: int| 0 < i < el - sl ==> #[trigger] r[i] == rows[sl + i]
        }),
    decreases end.line_spec() - start.line_spec(),
{
    let sl = start.line_spec() as int;
    let el = end.line_spec() as int;
    let r = range_spec(rows, start, end);
    if sl < el {
        let next = Location::mk((sl + 1) as usize, 0);
        Location::lemma_mk((sl + 1) as usize, 0);
        law_range_pieces(rows, next, end);
        let rest = range_spec(rows, next, end);
        assert(r == seq![range_next_spec(rows, start, end).0->Some_0] + rest);
        assert forall|i: int| 0 < i < el - sl implies #[trigger] r[i] == rows[sl + i] by {
            assert(r[i] == rest[i - 1]);
            if i == 1 {
                let row = rows[sl + 1];
                if row.len() > 0 {
                    assert(row.skip(0) =~= row);
                } else {
                    assert(row =~= Seq::<char>::empty());
                }
            }
        }
        assert(r[el - sl] == rest[el - sl - 1]);
        if sl + 1 == el {
            let re = rows[el];
            if re.len() > 0 {
                assert(rest[0] == window(re, 0, end.col_spec() as int));
            }
        }
    }
}

} // verus!
