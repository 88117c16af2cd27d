//! Cursor motions over the words of a buffer.
use crate::buffer::{Buffer, BufferView};
use crate::location::{loc_lt, Location};
use crate::text::{char_is_alphanumeric, char_is_whitespace, is_alphanumeric, is_whitespace};
use vstd::math::min;
use vstd::prelude::*;

verus! {

/// Which characters make up a word.
#[derive(Clone, Copy, PartialEq, Eq, Structural, Debug)]
pub enum WordClass {
    /// Letters and digits (`w`, `b`).
    Small,
    /// Anything but white space (`W`, `B`).
    Big,
}

/// Whether `c` belongs to a word of the class.
pub open spec fn inside_spec(class: WordClass, c: char) -> bool {
    match class {
        WordClass::Small => is_alphanumeric(c),
        WordClass::Big => !is_whitespace(c),
    }
}

fn inside(class: WordClass, c: char) -> (r: bool)
    ensures
        r == inside_spec(class, c),
{
    match class {
        WordClass::Small => char_is_alphanumeric(c),
        WordClass::Big => !char_is_whitespace(c),
    }
}

/// The number of leading characters of `s` that are (`want`) or are not
/// inside a word.
pub open spec fn count_prefix(s: Seq<char>, class: WordClass, want: bool) -> nat
    decreases s.len(),
{
    if s.len() > 0 && inside_spec(class, s[0]) == want {
        1 + count_prefix(s.drop_first(), class, want)
    } else {
        0
    }
}

/// The number of trailing characters of `s` that are (`want`) or are not
/// inside a word.
pub open spec fn count_suffix(s: Seq<char>, class: WordClass, want: bool) -> nat
    decreases s.len(),
{
    if s.len() > 0 && inside_spec(class, s.last()) == want {
        1 + count_suffix(s.drop_last(), class, want)
    } else {
        0
    }
}

proof fn lemma_count_prefix_bound(s: Seq<char>, class: WordClass, want: bool)
    ensures
        count_prefix(s, class, want) <= s.len(),
    decreases s.len(),
{
    if s.len() > 0 {
        lemma_count_prefix_bound(s.drop_first(), class, want);
    }
}

proof fn lemma_count_suffix_bound(s: Seq<char>, class: WordClass, want: bool)
    ensures
        count_suffix(s, class, want) <= s.len(),
    decreases s.len(),
{
    if s.len() > 0 {
        lemma_count_suffix_bound(s.drop_last(), class, want);
    }
}

/// Counts the characters of `chars[from..]` that are (`want`) or are not
/// inside a word, up to the first that is not.
fn count_prefix_exec(chars: &Vec<char>, from: usize, class: WordClass, want: bool) -> (r: usize)
    requires
        from <= chars@.len(),
    ensures
        r == count_prefix(chars@.skip(from as int), class, want),
{
    let n = chars.len();
    let mut i = from;
    while i < n && inside(class, chars[i]) == want
        invariant
            n == chars@.len(),
            from <= i <= n,
            count_prefix(chars@.skip(from as int), class, want) == (i - from) + count_prefix(
                chars@.skip(i as int),
                class,
                want,
            ),
        decreases n - i,
    {
        assert(chars@.skip(i as int).drop_first() == chars@.skip(i + 1));
        i = i + 1;
    }
    i - from
}

/// Counts the characters of `chars[..to]` that are (`want`) or are not
/// inside a word, back from `to` to the first that is not.
fn count_suffix_exec(chars: &Vec<char>, to: usize, class: WordClass, want: bool) -> (r: usize)
    requires
        to <= chars@.len(),
    ensures
        r == count_suffix(chars@.take(to as int), class, want),
{
    let mut i = to;
    while i > 0 && inside(class, chars[i - 1]) == want
        invariant
            i <= to <= chars@.len(),
            count_suffix(chars@.take(to as int), class, want) == (to - i) + count_suffix(
                chars@.take(i as int),
                class,
                want,
            ),
        decreases i,
    {
        assert(chars@.take(i as int).drop_last() == chars@.take(i - 1));
        i = i - 1;
    }
    to - i
}

/// Where a forward word motion from `(line, col)` lands: past the rest of
/// the current word and the gap after it, or, when the line holds no further
/// word, at the first word of the next line.
pub open spec fn forward_target(rows: Seq<Seq<char>>, line: int, col: int, class: WordClass) -> Option<
    Location,
> {
    if line >= rows.len() {
        None
    } else {
        let row = rows[line];
        let i0 = if col < row.len() {
            col
        } else {
            0
        };
        let rest = row.skip(i0);
        let n1 = count_prefix(rest, class, true);
        let rest2 = rest.skip(n1 as int);
        let n2 = count_prefix(rest2, class, false);
        if n2 < rest2.len() || line + 1 >= rows.len() {
            Some(Location::mk(line as usize, (col + n1 + n2) as usize))
        } else {
            Some(Location::mk((line + 1) as usize, count_prefix(rows[line + 1], class, false) as usize))
        }
    }
}

/// A forward motion cannot overflow the column: the cursor's column plus the
/// length of its line fits in a `usize`.
pub open spec fn forward_ok(v: BufferView) -> bool {
    v.cur_col + v.row_len(v.cur_line as int) <= usize::MAX
}

/// Where a backward word motion from `(line, col)` lands: the start of the
/// word before the cursor in its line, or else the start of the last word of
/// the line above (its start when it has none), or the start of the buffer.
pub open spec fn backward_target(rows: Seq<Seq<char>>, line: int, col: int, class: WordClass) -> Option<
    Location,
> {
    if line >= rows.len() {
        None
    } else {
        let row = rows[line];
        let j0 = min(col, row.len() as int);
        let j1 = j0 - count_suffix(row.take(j0), class, false);
        if j1 > 0 {
            Some(Location::mk(line as usize, (j1 - count_suffix(row.take(j1), class, true)) as usize))
        } else if line == 0 {
            Some(Location::mk(0, 0))
        } else {
            let prev = rows[line - 1];
            let k1 = prev.len() - count_suffix(prev, class, false);
            Some(
                Location::mk(
                    (line - 1) as usize,
                    (k1 - count_suffix(prev.take(k1), class, true)) as usize,
                ),
            )
        }
    }
}

fn forward(buf: &Buffer, class: WordClass) -> (r: Option<Location>)
    requires
        forward_ok(buf@),
    ensures
        r == forward_target(buf@.rows, buf@.cur_line as int, buf@.cur_col as int, class),
{
    let (line, col) = buf.position().destruct();
    proof {
        Location::lemma_mk(buf@.cur_line, buf@.cur_col);
    }
    let cur_line = match buf.get_row(line) {
        Some(s) => s,
        None => {
            return None;
        },
    };
    let chars = crate::buffer::str_chars(cur_line);
    let n = chars.len();
    let idx = if col < n {
        col
    } else {
        0
    };
    let n1 = count_prefix_exec(&chars, idx, class, true);
    proof {
        lemma_count_prefix_bound(chars@.skip(idx as int), class, true);
        assert(chars@.skip(idx as int).skip(n1 as int) == chars@.skip(idx + n1));
        lemma_count_prefix_bound(chars@.skip(idx + n1), class, false);
    }
    let col = col + n1;
    let n2 = count_prefix_exec(&chars, idx + n1, class, false);
    if idx + n1 + n2 < n {
        return Some(Location::new(line, col + n2));
    }
    let nlines = buf.len();
    assert(line < nlines);
    let next = match buf.get_row(line + 1) {
        Some(s) => s,
        None => {
            return Some(Location::new(line, col + n2));
        },
    };
    let next_chars = crate::buffer::str_chars(next);
    let n3 = count_prefix_exec(&next_chars, 0, class, false);
    assert(next_chars@.skip(0) == next_chars@);
    Some(Location::new(line + 1, n3))
}

fn backward(buf: &Buffer, class: WordClass) -> (r: Option<Location>)
    ensures
        r == backward_target(buf@.rows, buf@.cur_line as int, buf@.cur_col as int, class),
{
    let (line, col) = buf.position().destruct();
    proof {
        Location::lemma_mk(buf@.cur_line, buf@.cur_col);
    }
    let cur_line = match buf.get_row(line) {
        Some(s) => s,
        None => {
            return None;
        },
    };
    let chars = crate::buffer::str_chars(cur_line);
    let j0 = if col < chars.len() {
        col
    } else {
        chars.len()
    };
    let gap = count_suffix_exec(&chars, j0, class, false);
    proof {
        lemma_count_suffix_bound(chars@.take(j0 as int), class, false);
    }
    let j1 = j0 - gap;
    if j1 > 0 {
        let w = count_suffix_exec(&chars, j1, class, true);
        proof {
            lemma_count_suffix_bound(chars@.take(j1 as int), class, true);
        }
        return Some(Location::new(line, j1 - w));
    }
    if line == 0 {
        return Some(Location::new(0, 0));
    }
    let prev = match buf.get_row(line - 1) {
        Some(s) => s,
        None => {
            return Some(Location::new(0, 0));
        },
    };
    let pchars = crate::buffer::str_chars(prev);
    let pn = pchars.len();
    let pgap = count_suffix_exec(&pchars, pn, class, false);
    assert(pchars@.take(pn as int) == pchars@);
    proof {
        lemma_count_suffix_bound(pchars@, class, false);
    }
    let k1 = pn - pgap;
    let w = count_suffix_exec(&pchars, k1, class, true);
    proof {
        lemma_count_suffix_bound(pchars@.take(k1 as int), class, true);
    }
    Some(Location::new(line - 1, k1 - w))
}

/// A way of moving the cursor: from a buffer's state to where the cursor
/// goes, if anywhere.
pub trait Motion {
    /// The motion runs without failing on this state.
    spec fn ok(&self, buf: BufferView) -> bool;

    /// Where the motion takes the cursor.
    spec fn target(&self, buf: BufferView) -> Option<Location>;

    fn next(&self, buf: &Buffer) -> (r: Option<Location>)
        requires
            self.ok(buf@),
        ensures
            r == self.target(buf@),
    ;
}

/// `w`: to the start of the next word of letters and digits.
pub struct Word;

/// `W`: to the start of the next run of non-blank characters.
pub struct BigWord;

/// `b`: back to the start of the word of letters and digits before the cursor.
pub struct Back;

/// `B`: back to the start of the run of non-blank characters before the cursor.
pub struct BigBack;

impl Word {
    pub fn new() -> Self {
        Word
    }
}

impl BigWord {
    pub fn new() -> Self {
        BigWord
    }
}

impl Back {
    pub fn new() -> Self {
        Back
    }
}

impl BigBack {
    pub fn new() -> Self {
        BigBack
    }
}

impl Motion for Word {
    open spec fn ok(&self, buf: BufferView) -> bool {
        forward_ok(buf)
    }

    open spec fn target(&self, buf: BufferView) -> Option<Location> {
        forward_target(buf.rows, buf.cur_line as int, buf.cur_col as int, WordClass::Small)
    }

    fn next(&self, buf: &Buffer) -> (r: Option<Location>) {
        forward(buf, WordClass::Small)
    }
}

impl Motion for BigWord {
    open spec fn ok(&self, buf: BufferView) -> bool {
        forward_ok(buf)
    }

    open spec fn target(&self, buf: BufferView) -> Option<Location> {
        forward_target(buf.rows, buf.cur_line as int, buf.cur_col as int, WordClass::Big)
    }

    fn next(&self, buf: &Buffer) -> (r: Option<Location>) {
        forward(buf, WordClass::Big)
    }
}

impl Motion for Back {
    open spec fn ok(&self, buf: BufferView) -> bool {
        true
    }

    open spec fn target(&self, buf: BufferView) -> Option<Location> {
        backward_target(buf.rows, buf.cur_line as int, buf.cur_col as int, WordClass::Small)
    }

    fn next(&self, buf: &Buffer) -> (r: Option<Location>) {
        backward(buf, WordClass::Small)
    }
}

impl Motion for BigBack {
    open spec fn ok(&self, buf: BufferView) -> bool {
        true
    }

    open spec fn target(&self, buf: BufferView) -> Option<Location> {
        backward_target(buf.rows, buf.cur_line as int, buf.cur_col as int, WordClass::Big)
    }

    fn next(&self, buf: &Buffer) -> (r: Option<Location>) {
        backward(buf, WordClass::Big)
    }
}

/// A forward word motion never lands before the cursor.
pub proof fn law_forward_not_back(v: BufferView, class: WordClass)
    requires
        forward_ok(v),
        v.rows.len() <= usize::MAX,
    ensures
        forward_target(v.rows, v.cur_line as int, v.cur_col as int, class) matches Some(e) ==> !loc_lt(
            e,
            Location::mk(v.cur_line, v.cur_col),
        ),
{
    Location::lemma_mk(v.cur_line, v.cur_col);
    if v.cur_line < v.rows.len() {
        let row = v.rows[v.cur_line as int];
        let i0 = if v.cur_col < row.len() {
            v.cur_col as int
        } else {
            0
        };
        let rest = row.skip(i0);
        lemma_count_prefix_bound(rest, class, true);
        let n1 = count_prefix(rest, class, true);
        let rest2 = rest.skip(n1 as int);
        lemma_count_prefix_bound(rest2, class, false);
        let n2 = count_prefix(rest2, class, false);
        if n2 < rest2.len() || v.cur_line + 1 >= v.rows.len() {
            Location::lemma_mk(v.cur_line, (v.cur_col + n1 + n2) as usize);
        } else {
            Location::lemma_mk(
                (v.cur_line + 1) as usize,
                count_prefix(v.rows[v.cur_line + 1], class, false) as usize,
            );
        }
    }
}

/// A backward word motion never lands after the cursor.
pub proof fn law_backward_not_forward(v: BufferView, class: WordClass)
    ensures
        backward_target(v.rows, v.cur_line as int, v.cur_col as int, class) matches Some(e) ==> !loc_lt(
            Location::mk(v.cur_line, v.cur_col),
            e,
        ),
{
    Location::lemma_mk(v.cur_line, v.cur_col);
    if v.cur_line < v.rows.len() {
        let row = v.rows[v.cur_line as int];
        let j0 = min(v.cur_col as int, row.len() as int);
        lemma_count_suffix_bound(row.take(j0), class, false);
        let j1 = j0 - count_suffix(row.take(j0), class, false);
        if j1 > 0 {
            lemma_count_suffix_bound(row.take(j1), class, true);
            Location::lemma_mk(v.cur_line, (j1 - count_suffix(row.take(j1), class, true)) as usize);
        } else if v.cur_line == 0 {
            Location::lemma_mk(0, 0);
        } else {
            let prev = v.rows[v.cur_line - 1];
            lemma_count_suffix_bound(prev, class, false);
            let k1 = prev.len() - count_suffix(prev, class, false);
            lemma_count_suffix_bound(prev.take(k1), class, true);
            Location::lemma_mk(
                (v.cur_line - 1) as usize,
                (k1 - count_suffix(prev.take(k1), class, true)) as usize,
            );
        }
    }
}

/// What `count_prefix` counts: the leading characters that are (`want`)
/// or are not inside a word, up to the first that is not so.
proof fn lemma_count_prefix_props(s: Seq<char>, class: WordClass, want: bool)
    ensures
        count_prefix(s, class, want) <= s.len(),
        forall|j: int|
            0 <= j < count_prefix(s, class, want) ==> inside_spec(class, #[trigger] s[j]) == want,
        count_prefix(s, class, want) < s.len() ==> inside_spec(
            class,
            s[count_prefix(s, class, want) as int],
        ) != want,
    decreases s.len(),
{
    if s.len() > 0 && inside_spec(class, s[0]) == want {
        let t = s.drop_first();
        lemma_count_prefix_props(t, class, want);
        assert forall|j: int| 0 <= j < count_prefix(s, class, want) implies inside_spec(
            class,
            #[trigger] s[j],
        ) == want by {
            if j > 0 {
                assert(s[j] == t[j - 1]);
            }
        }
        if count_prefix(s, class, want) < s.len() {
            assert(s[count_prefix(s, class, want) as int] == t[count_prefix(t, class, want) as int]);
        }
    }
}

/// A word starts at `j` of `row`: the character there is inside a word and
/// the one before it is not.
pub open spec fn word_start_at(row: Seq<char>, j: int, class: WordClass) -> bool {
    0 < j < row.len() && inside_spec(class, row[j]) && !inside_spec(class, row[j - 1])
}

/// Where the line-local part of a forward motion stops: after the word the
/// cursor is in and the blanks after it. It stops at the first word start
/// after the cursor when there is one, and at the line's end otherwise.
proof fn lemma_forward_stop(row: Seq<char>, col: int, class: WordClass)
    requires
        0 <= col < row.len(),
    ensures
        ({
            let rest = row.skip(col);
            let n1 = count_prefix(rest, class, true);
            let rest2 = rest.skip(n1 as int);
            let n2 = count_prefix(rest2, class, false);
            let p = col + n1 + n2;
            &&& col < p <= row.len()
            &&& p < row.len() ==> word_start_at(row, p, class)
            &&& forall|j: int| col < j < p ==> !word_start_at(row, j, class)
        }),
{
    let rest = row.skip(col);
    lemma_count_prefix_props(rest, class, true);
    let n1 = count_prefix(rest, class, true);
    let rest2 = rest.skip(n1 as int);
    lemma_count_prefix_props(rest2, class, false);
    let n2 = count_prefix(rest2, class, false);
    let p = col + n1 + n2;
    assert forall|j: int| col <= j < col + n1 implies inside_spec(class, #[trigger] row[j]) by {
        assert(rest[j - col] == row[j]);
    }
    assert forall|j: int| col + n1 <= j < p implies !inside_spec(class, #[trigger] row[j]) by {
        assert(rest2[j - col - n1] == row[j]);
    }
    if n1 < rest.len() {
        assert(rest[n1 as int] == row[col + n1]);
    }
    if p < row.len() {
        assert(rest2[n2 as int] == row[p]);
        if n2 == 0 {
            assert(n1 < rest.len());
        }
    }
    assert forall|j: int| col < j < p implies !word_start_at(row, j, class) by {
        if j < col + n1 {
            assert(inside_spec(class, row[j - 1]));
        } else {
            assert(!inside_spec(class, row[j]));
        }
    }
}

/// A forward word motion from inside a line stops at the first word start
/// after the cursor on that line, when there is one.
pub proof fn law_forward_next_word_start(v: BufferView, class: WordClass)
    requires
        forward_ok(v),
        v.cur_line < v.rows.len(),
        v.cur_col < v.rows[v.cur_line as int].len(),
        exists|j: int| v.cur_col < j && #[trigger] word_start_at(v.rows[v.cur_line as int], j, class),
    ensures
        forward_target(v.rows, v.cur_line as int, v.cur_col as int, class) matches Some(e) && {
            let row = v.rows[v.cur_line as int];
            &&& e.line_spec() == v.cur_line
            &&& v.cur_col < e.col_spec()
            &&& word_start_at(row, e.col_spec() as int, class)
            &&& forall|j: int| v.cur_col < j < e.col_spec() ==> !word_start_at(row, j, class)
        },
{
    let row = v.rows[v.cur_line as int];
    let col = v.cur_col as int;
    lemma_forward_stop(row, col, class);
    let rest = row.skip(col);
    let n1 = count_prefix(rest, class, true);
    let rest2 = rest.skip(n1 as int);
    let n2 = count_prefix(rest2, class, false);
    let p = col + n1 + n2;
    let w = choose|j: int| v.cur_col < j && #[trigger] word_start_at(row, j, class);
    assert(p < row.len()) by {
        if p >= row.len() {
            assert(!word_start_at(row, w, class));
        }
    }
    assert(n2 < rest2.len());
    Location::lemma_mk(v.cur_line, p as usize);
}

/// A forward word motion from inside a line with no word start after the
/// cursor goes on to the next line, when there is one, and stops at the
/// first character there that is inside a word (or at its end).
pub proof fn law_forward_to_next_line(v: BufferView, class: WordClass)
    requires
        forward_ok(v),
        v.rows.len() <= usize::MAX,
        v.cur_line + 1 < v.rows.len(),
        v.rows[v.cur_line + 1].len() <= usize::MAX,
        v.cur_col < v.rows[v.cur_line as int].len(),
        forall|j: int| v.cur_col < j ==> !#[trigger] word_start_at(v.rows[v.cur_line as int], j, class),
    ensures
        forward_target(v.rows, v.cur_line as int, v.cur_col as int, class) matches Some(e) && {
            let next = v.rows[v.cur_line + 1];
            &&& e.line_spec() == v.cur_line + 1
            &&& e.col_spec() <= next.len()
            &&& forall|j: int| 0 <= j < e.col_spec() ==> !inside_spec(class, #[trigger] next[j])
            &&& e.col_spec() < next.len() ==> inside_spec(class, next[e.col_spec() as int])
        },
{
    let row = v.rows[v.cur_line as int];
    let col = v.cur_col as int;
    lemma_forward_stop(row, col, class);
    let rest = row.skip(col);
    let n1 = count_prefix(rest, class, true);
    let rest2 = rest.skip(n1 as int);
    let n2 = count_prefix(rest2, class, false);
    let p = col + n1 + n2;
    assert(p == row.len()) by {
        if p < row.len() {
            assert(word_start_at(row, p, class));
        }
    }
    assert(!(n2 < rest2.len()));
    let next = v.rows[v.cur_line + 1];
    lemma_count_prefix_props(next, class, false);
    let c = count_prefix(next, class, false);
    Location::lemma_mk((v.cur_line + 1) as usize, c as usize);
    assert(forward_target(v.rows, v.cur_line as int, v.cur_col as int, class) == Some(
        Location::mk((v.cur_line + 1) as usize, c as usize),
    ));
}

/// What `count_suffix` counts: the trailing characters that are (`want`)
/// or are not inside a word, back to the last that is not so.
proof fn lemma_count_suffix_props(s: Seq<char>, class: WordClass, want: bool)
    ensures
        count_suffix(s, class, want) <= s.len(),
        forall|j: int|
            s.len() - count_suffix(s, class, want) <= j < s.len() ==> inside_spec(
                class,
                #[trigger] s[j],
            ) == want,
        count_suffix(s, class, want) < s.len() ==> inside_spec(
            class,
            s[s.len() - count_suffix(s, class, want) - 1],
        ) != want,
    decreases s.len(),
{
    if s.len() > 0 && inside_spec(class, s.last()) == want {
        let t = s.drop_last();
        lemma_count_suffix_props(t, class, want);
        assert forall|j: int|
            s.len() - count_suffix(s, class, want) <= j < s.len() implies inside_spec(
            class,
            #[trigger] s[j],
        ) == want by {
            if j < s.len() - 1 {
                assert(s[j] == t[j]);
            }
        }
        if count_suffix(s, class, want) < s.len() {
            assert(s[s.len() - count_suffix(s, class, want) - 1] == t[t.len() - count_suffix(
                t,
                class,
                want,
            ) - 1]);
        }
    }
}

/// A word begins at `p` of `row`: the character there is inside a word and
/// it is the first of the line or follows one that is not.
pub open spec fn word_begin_at(row: Seq<char>, p: int, class: WordClass) -> bool {
    0 <= p < row.len() && inside_spec(class, row[p]) && (p == 0 || !inside_spec(class, row[p - 1]))
}

/// A backward word motion with some word character before the cursor on
/// its line stops at the last place before the cursor where a word begins.
pub proof fn law_backward_last_word_begin(v: BufferView, class: WordClass)
    requires
        v.cur_line < v.rows.len(),
        exists|p: int|
            0 <= p < min(v.cur_col as int, v.rows[v.cur_line as int].len() as int) && inside_spec(
                class,
                #[trigger] v.rows[v.cur_line as int][p],
            ),
    ensures
        backward_target(v.rows, v.cur_line as int, v.cur_col as int, class) matches Some(e) && {
            let row = v.rows[v.cur_line as int];
            let j0 = min(v.cur_col as int, row.len() as int);
            &&& e.line_spec() == v.cur_line
            &&& e.col_spec() < j0
            &&& word_begin_at(row, e.col_spec() as int, class)
            &&& forall|q: int| e.col_spec() < q < j0 ==> !word_begin_at(row, q, class)
        },
{
    let row = v.rows[v.cur_line as int];
    let j0 = min(v.cur_col as int, row.len() as int);
    let a = row.take(j0);
    lemma_count_suffix_props(a, class, false);
    let j1 = j0 - count_suffix(a, class, false);
    let w = choose|p: int| 0 <= p < j0 && inside_spec(class, #[trigger] row[p]);
    assert(j1 > 0) by {
        if j1 <= 0 {
            assert(a[w] == row[w]);
        }
    }
    assert(inside_spec(class, row[j1 - 1])) by {
        assert(a[j1 - 1] == row[j1 - 1]);
    }
    let b2 = row.take(j1);
    lemma_count_suffix_props(b2, class, true);
    let q0 = j1 - count_suffix(b2, class, true);
    assert(q0 < j1) by {
        assert(b2[j1 - 1] == row[j1 - 1]);
    }
    assert(inside_spec(class, row[q0])) by {
        assert(b2[q0] == row[q0]);
    }
    if q0 > 0 {
        assert(b2[q0 - 1] == row[q0 - 1]);
    }
    assert forall|q: int| q0 < q < j0 implies !word_begin_at(row, q, class) by {
        if q < j1 {
            assert(b2[q - 1] == row[q - 1]);
        } else {
            assert(a[q] == row[q]);
        }
    }
    Location::lemma_mk(v.cur_line, q0 as usize);
}

} // verus!
