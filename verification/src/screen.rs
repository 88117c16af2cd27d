//! What the terminal shows: the lines of the buffer, the status bar, and
//! the command line or the cursor, as bytes to be written out.
use crate::buffer::{
    cursor_line_width, cursor_ok, render_spec, sat_sub, scrolled, window, Buffer, BufferView,
};
use crate::vim::{mode_name, mode_of, Mode, ModeView, Vim, VimView};
use vstd::prelude::*;
use vstd::utf8::encode_utf8;

verus! {

/// How many redraws a status message stays for.
pub const MESSAGE_TICKS: usize = 30;

/// A message shown in the status bar for a while.
pub struct StatusMessage {
    inner: Option<String>,
    alive_for: usize,
}

impl StatusMessage {
    /// The message, while it is shown.
    pub closed spec fn message(self) -> Option<Seq<char>> {
        match self.inner {
            Some(m) => Some(m@),
            None => None,
        }
    }

    /// How many more redraws the message stays for.
    pub closed spec fn alive(self) -> nat {
        self.alive_for as nat
    }

    /// No message.
    pub fn new() -> (r: Self)
        ensures
            r.message() is None,
            r.alive() == 0,
    {
        Self { inner: None, alive_for: 0 }
    }

    /// Shows `m` for the next `MESSAGE_TICKS` redraws.
    pub fn set_message(&mut self, m: String)
        ensures
            final(self).message() == Some(m@),
            final(self).alive() == MESSAGE_TICKS,
    {
        self.alive_for = MESSAGE_TICKS;
        self.inner = Some(m);
    }

    /// One redraw passes: the count goes down, and at zero the message goes.
    pub fn tick(&mut self)
        ensures
            (final(self).alive(), final(self).message()) == tick_step(
                old(self).alive(),
                old(self).message(),
            ),
    {
        self.alive_for = if self.alive_for > 0 {
            self.alive_for - 1
        } else {
            0
        };
        if self.alive_for == 0 {
            self.inner = None;
        }
    }

    /// The message, while it is shown.
    pub fn msg(&self) -> (r: Option<&str>)
        ensures
            match self.message() {
                Some(m) => r matches Some(s) && s@ == m,
                None => r is None,
            },
    {
        match &self.inner {
            Some(m) => Some(m.as_str()),
            None => None,
        }
    }
}

/// One redraw of a status message: the count goes down (not below zero),
/// and at zero the message goes.
pub open spec fn tick_step(alive: nat, msg: Option<Seq<char>>) -> (nat, Option<Seq<char>>) {
    let a = sat_sub(alive as int, 1) as nat;
    (a, if a == 0 {
        None
    } else {
        msg
    })
}

/// A status message after `k` redraws.
pub open spec fn after_ticks(alive: nat, msg: Option<Seq<char>>, k: nat) -> (nat, Option<Seq<char>>)
    decreases k,
{
    if k == 0 {
        (alive, msg)
    } else {
        let (a, m) = tick_step(alive, msg);
        after_ticks(a, m, (k - 1) as nat)
    }
}

proof fn lemma_after_ticks(alive: nat, m: Seq<char>, k: nat)
    requires
        alive > 0,
    ensures
        after_ticks(alive, Some(m), k) == (if k < alive {
            ((alive - k) as nat, Some(m))
        } else {
            (0nat, None::<Seq<char>>)
        }),
    decreases k,
{
    if k > 0 {
        if alive > 1 {
            lemma_after_ticks((alive - 1) as nat, m, (k - 1) as nat);
        } else {
            lemma_after_ticks_gone((k - 1) as nat);
        }
    }
}

proof fn lemma_after_ticks_gone(k: nat)
    ensures
        after_ticks(0, None, k) == (0nat, None::<Seq<char>>),
    decreases k,
{
    if k > 0 {
        lemma_after_ticks_gone((k - 1) as nat);
    }
}

/// A message that was just set is shown for exactly `MESSAGE_TICKS`
/// redraws: still there after fewer ticks, gone after that many.
pub proof fn law_message_shown_for_its_ticks(m: Seq<char>, k: nat)
    ensures
        after_ticks(MESSAGE_TICKS as nat, Some(m), k).1 == (if k < MESSAGE_TICKS {
            Some(m)
        } else {
            None
        }),
{
    lemma_after_ticks(MESSAGE_TICKS as nat, m, k);
}

/// The decimal digits of `n`.
pub open spec fn decimal(n: nat) -> Seq<u8>
    decreases n,
{
    if n < 10 {
        seq![('0' as u8 + n) as u8]
    } else {
        decimal(n / 10).push(('0' as u8 + n % 10) as u8)
    }
}

/// The number that decimal digits stand for, read most significant first.
pub open spec fn numeral_value(s: Seq<u8>) -> int
    decreases s.len(),
{
    if s.len() == 0 {
        0
    } else {
        numeral_value(s.drop_last()) * 10 + (s.last() - '0' as u8)
    }
}

/// The bytes are decimal digits.
pub open spec fn all_digit_bytes(s: Seq<u8>) -> bool {
    forall|i: int| 0 <= i < s.len() ==> '0' as u8 <= #[trigger] s[i] <= '9' as u8
}

/// `decimal(n)` is the usual numeral of `n`: digits only, most significant
/// first, no leading zero, and read back it is `n`.
pub proof fn law_decimal_reads_back(n: nat)
    ensures
        decimal(n).len() > 0,
        decimal(n).len() == 1 <==> n < 10,
        all_digit_bytes(decimal(n)),
        decimal(n).len() > 1 ==> decimal(n)[0] != '0' as u8,
        numeral_value(decimal(n)) == n,
    decreases n,
{
    assert('0' as u8 == 48);
    if n < 10 {
        let x = ('0' as u8 + n) as u8;
        assert(x == 48 + n);
        assert(decimal(n) == seq![x]);
        assert(seq![x].drop_last() =~= Seq::<u8>::empty());
        assert(numeral_value(Seq::<u8>::empty()) == 0);
    } else {
        law_decimal_reads_back(n / 10);
        let d = decimal(n / 10);
        let x = ('0' as u8 + n % 10) as u8;
        assert(x == 48 + n % 10);
        assert(decimal(n) == d.push(x));
        assert(decimal(n).drop_last() =~= d);
        assert(decimal(n)[0] == d[0]);
        assert(numeral_value(decimal(n)) == numeral_value(d) * 10 + (x - 48));
        assert(n == (n / 10) * 10 + n % 10);
        if d.len() == 1 {
            assert(d == seq![('0' as u8 + n / 10) as u8]);
            assert(d[0] == 48 + n / 10);
        }
        assert(all_digit_bytes(decimal(n))) by {
            assert forall|i: int| 0 <= i < decimal(n).len() implies '0' as u8 <= #[trigger] decimal(
                n,
            )[i] <= '9' as u8 by {
                if i < d.len() {
                    assert(decimal(n)[i] == d[i]);
                }
            }
        }
    }
}

/// The position in the status bar, when it fits, is the line's numeral,
/// a colon, and the column's numeral, both counted from 1.
pub proof fn law_position_text_reads_back(line: nat, col: nat)
    requires
        decimal(line + 1).len() + decimal(col + 1).len() < 16,
    ensures
        exists|k: int|
            0 <= k < position_text(line, col).len() && #[trigger] position_text(line, col)[k]
                == ':' as u8 && all_digit_bytes(position_text(line, col).take(k)) && all_digit_bytes(
                position_text(line, col).skip(k + 1),
            ) && numeral_value(position_text(line, col).take(k)) == line + 1 && numeral_value(
                position_text(line, col).skip(k + 1),
            ) == col + 1,
{
    law_decimal_reads_back(line + 1);
    law_decimal_reads_back(col + 1);
    let a = decimal(line + 1);
    let b = decimal(col + 1);
    let t = position_text(line, col);
    let k = a.len() as int;
    assert(t == a + seq![':' as u8] + b);
    assert(t.take(k) =~= a);
    assert(t.skip(k + 1) =~= b);
    assert(t[k] == ':' as u8);
}

/// `n` spaces.
pub open spec fn spaces(n: nat) -> Seq<u8> {
    Seq::new(n, |i: int| ' ' as u8)
}

/// Appends the bytes `s`.
fn append(out: &mut Vec<u8>, s: &[u8])
    ensures
        final(out)@ == old(out)@ + s@,
{
    let n = s.len();
    let mut i: usize = 0;
    while i < n
        invariant
            n == s@.len(),
            i <= n,
            out@ == old(out)@ + s@.take(i as int),
        decreases n - i,
    {
        out.push(s[i]);
        i = i + 1;
        assert(out@ =~= old(out)@ + s@.take(i as int));
    }
    assert(s@.take(n as int) =~= s@);
}

/// Appends the UTF-8 bytes of `s`.
fn append_str(out: &mut Vec<u8>, s: &str)
    ensures
        final(out)@ == old(out)@ + encode_utf8(s@),
{
    append(out, s.as_bytes());
}

/// Appends the decimal digits of `n`.
fn append_decimal(out: &mut Vec<u8>, n: usize)
    ensures
        final(out)@ == old(out)@ + decimal(n as nat),
    decreases n,
{
    if n >= 10 {
        append_decimal(out, n / 10);
    }
    out.push('0' as u8 + (n % 10) as u8);
    assert(n >= 10 ==> decimal(n as nat) == decimal((n / 10) as nat).push(('0' as u8 + n % 10) as u8));
}

/// Appends `n` spaces.
fn append_spaces(out: &mut Vec<u8>, n: usize)
    ensures
        final(out)@ == old(out)@ + spaces(n as nat),
{
    let mut i: usize = 0;
    while i < n
        invariant
            i <= n,
            out@ == old(out)@ + spaces(i as nat),
        decreases n - i,
    {
        out.push(' ' as u8);
        i = i + 1;
        assert(out@ =~= old(out)@ + spaces(i as nat));
    }
}

/// The cursor position as the status bar shows it, counted from 1: line,
/// a colon, column, cut to 16 bytes.
pub open spec fn position_text(line: nat, col: nat) -> Seq<u8> {
    let full = decimal(line + 1) + seq![':' as u8] + decimal(col + 1);
    if full.len() <= 16 {
        full
    } else {
        full.take(16)
    }
}

/// The text of the status bar: the mode, the buffer's name, the position,
/// `[+]` when the buffer is changed, and the message.
pub open spec fn status_text(
    m: Mode,
    name: Seq<char>,
    line: nat,
    col: nat,
    dirty: bool,
    msg: Option<Seq<char>>,
) -> Seq<u8> {
    let head = encode_utf8(mode_name(m)) + seq![' ' as u8] + encode_utf8(name) + seq![' ' as u8]
        + position_text(line, col);
    let with_dirty = if dirty {
        head + encode_utf8(" [+]"@)
    } else {
        head
    };
    match msg {
        Some(s) => with_dirty + seq![' ' as u8] + encode_utf8(s),
        None => with_dirty,
    }
}

/// The status bar: in reverse video, its text padded with spaces to `cols`
/// (the text's length taken as a `u16`).
pub open spec fn status_bar_spec(text: Seq<u8>, cols: u16) -> Seq<u8> {
    let used = text.len() as u16;
    let pad = if used < cols {
        cols - used
    } else {
        0
    };
    encode_utf8("\x1b[7m"@) + text + spaces(pad as nat) + encode_utf8("\x1b[m"@)
}

/// The position text of the status bar.
fn position_bytes(line: usize, col: usize) -> (r: Vec<u8>)
    requires
        line < usize::MAX,
        col < usize::MAX,
    ensures
        r@ == position_text(line as nat, col as nat),
{
    let mut pos: Vec<u8> = Vec::new();
    append_decimal(&mut pos, line + 1);
    pos.push(':' as u8);
    append_decimal(&mut pos, col + 1);
    assert(pos@ =~= decimal((line + 1) as nat) + seq![':' as u8] + decimal((col + 1) as nat));
    if pos.len() > 16 {
        pos.truncate(16);
    }
    pos
}

/// The text of the status bar of `buf` in mode `m`.
fn status_bytes(m: Mode, buf: &Buffer, status: &StatusMessage) -> (r: Vec<u8>)
    requires
        buf@.cur_line < usize::MAX,
        buf@.cur_col < usize::MAX,
    ensures
        r@ == status_text(
            m,
            buf@.name,
            buf@.cur_line as nat,
            buf@.cur_col as nat,
            buf@.dirty,
            status.message(),
        ),
{
    let mut out: Vec<u8> = Vec::new();
    append_str(&mut out, m.str());
    out.push(' ' as u8);
    append_str(&mut out, buf.name());
    out.push(' ' as u8);
    let (cur_line, cur_col) = buf.position().destruct();
    proof {
        crate::location::Location::lemma_mk(buf@.cur_line, buf@.cur_col);
    }
    let pos = position_bytes(cur_line, cur_col);
    append(&mut out, pos.as_slice());
    let ghost head = out@;
    assert(head =~= encode_utf8(mode_name(m)) + seq![' ' as u8] + encode_utf8(buf@.name) + seq![
        ' ' as u8,
    ] + position_text(buf@.cur_line as nat, buf@.cur_col as nat));
    if buf.is_dirty() {
        append_str(&mut out, " [+]");
    }
    let ghost with_dirty = out@;
    match status.msg() {
        Some(sm) => {
            out.push(' ' as u8);
            append_str(&mut out, sm);
            assert(out@ =~= with_dirty + seq![' ' as u8] + encode_utf8(sm@));
        },
        None => {},
    }
    out
}

/// Draws the status bar of `buf` in mode `m`.
pub fn draw_status_bar(m: Mode, buf: &Buffer, status: &StatusMessage, cols: u16) -> (r: Vec<u8>)
    requires
        buf@.cur_line < usize::MAX,
        buf@.cur_col < usize::MAX,
    ensures
        r@ == status_bar_spec(
            status_text(
                m,
                buf@.name,
                buf@.cur_line as nat,
                buf@.cur_col as nat,
                buf@.dirty,
                status.message(),
            ),
            cols,
        ),
{
    let text = status_bytes(m, buf, status);
    let mut out: Vec<u8> = Vec::new();
    append_str(&mut out, "\x1b[7m");
    append(&mut out, text.as_slice());
    let used = text.len() as u16;
    let pad = if used < cols {
        cols - used
    } else {
        0
    };
    append_spaces(&mut out, pad as usize);
    append_str(&mut out, "\x1b[m");
    out
}

/// The welcome line: the program's name and version.
pub open spec fn banner(name: Seq<char>, version: Seq<char>) -> Seq<u8> {
    encode_utf8(name) + encode_utf8(" -- version "@) + encode_utf8(version)
}

/// Screen line `y`: the drawn part of the buffer's line there, or, in an
/// empty buffer a third of the way down, the welcome line centred behind a
/// tilde, or else a tilde; then the rest of the terminal line is cleared.
pub open spec fn screen_line(b: BufferView, y: int, rows: u16, cols: u16, welcome: Seq<u8>) -> Seq<u8> {
    let idx = b.row_off + y;
    let body = if idx < b.rows.len() {
        encode_utf8(window(render_spec(b.rows[idx]), b.col_off as int, b.col_off + cols))
    } else if b.rows.len() == 0 && y == rows / 3 {
        let pad = cols / 2;
        (if pad > 0 {
            seq!['~' as u8] + spaces((pad - 1) as nat)
        } else {
            Seq::empty()
        }) + welcome
    } else {
        seq!['~' as u8]
    };
    body + encode_utf8("\x1b[K"@) + encode_utf8("\r\n"@)
}

/// The first `n` screen lines.
pub open spec fn screen_lines(b: BufferView, n: nat, rows: u16, cols: u16, welcome: Seq<u8>) -> Seq<u8>
    decreases n,
{
    if n == 0 {
        Seq::empty()
    } else {
        screen_lines(b, (n - 1) as nat, rows, cols, welcome) + screen_line(
            b,
            n - 1,
            rows,
            cols,
            welcome,
        )
    }
}

/// Draws screen line `y` of `buf`.
fn draw_row(buf: &Buffer, y: u16, rows: u16, cols: u16, name: &str, version: &str) -> (r: Vec<u8>)
    requires
        buf@.row_off + rows <= usize::MAX,
        buf@.col_off + cols <= usize::MAX,
        y < rows,
    ensures
        r@ == screen_line(buf@, y as int, rows, cols, banner(name@, version@)),
{
    let mut out: Vec<u8> = Vec::new();
    match buf.get_row_render(y as usize, cols as usize) {
        Some(row) => append_str(&mut out, row),
        None => {
            if buf.is_empty() && y == rows / 3 {
                let mut pad = cols / 2;
                if pad > 0 {
                    out.push('~' as u8);
                    pad = pad - 1;
                }
                append_spaces(&mut out, pad as usize);
                append_str(&mut out, name);
                append_str(&mut out, " -- version ");
                append_str(&mut out, version);
            } else {
                out.push('~' as u8);
            }
        },
    }
    append_str(&mut out, "\x1b[K");
    append_str(&mut out, "\r\n");
    out
}

/// Draws the `rows` screen lines of `buf`.
pub fn draw_rows(buf: &Buffer, rows: u16, cols: u16, name: &str, version: &str) -> (r: Vec<u8>)
    requires
        buf@.row_off + rows <= usize::MAX,
        buf@.col_off + cols <= usize::MAX,
    ensures
        r@ == screen_lines(buf@, rows as nat, rows, cols, banner(name@, version@)),
{
    let mut out: Vec<u8> = Vec::new();
    let mut y: u16 = 0;
    while y < rows
        invariant
            y <= rows,
            buf@.row_off + rows <= usize::MAX,
            buf@.col_off + cols <= usize::MAX,
            out@ == screen_lines(buf@, y as nat, rows, cols, banner(name@, version@)),
        decreases rows - y,
    {
        let line = draw_row(buf, y, rows, cols, name, version);
        append(&mut out, line.as_slice());
        y = y + 1;
    }
    out
}

/// Where the cursor is drawn after the buffer is scrolled: its line and
/// column on the screen.
pub open spec fn cursor_spot(b: BufferView, rows: u16, cols: u16) -> (u16, u16) {
    let s = scrolled(b, rows, cols);
    (
        (b.cur_line - s.row_off) as u16,
        cursor_line_width(s, (b.cur_col - s.col_off) as u16) as u16,
    )
}

/// The escape that puts the terminal's cursor at screen line `y` and column
/// `x`, counted from 1.
pub open spec fn goto_spec(y: u16, x: u16) -> Seq<u8> {
    encode_utf8("\x1b["@) + decimal((y + 1) as nat) + seq![';' as u8] + decimal((x + 1) as nat) + seq!['H' as u8]
}

/// `refresh_screen` runs without failing: the lines and the status bar can
/// be drawn, and outside command mode the cursor can be placed and its
/// position counted from 1 fits in a `u16`.
pub open spec fn refresh_ok(v: VimView, b: BufferView, rows: u16, cols: u16) -> bool {
    &&& b.row_off + rows <= usize::MAX
    &&& b.col_off + cols <= usize::MAX
    &&& b.cur_line < usize::MAX
    &&& b.cur_col < usize::MAX
    &&& !(v.mode is Command) ==> {
        &&& cursor_ok(b, rows, cols)
        &&& cursor_spot(b, rows, cols).0 < u16::MAX
        &&& cursor_spot(b, rows, cols).1 < u16::MAX
    }
}

/// A whole redraw: the cursor hidden, the lines, the status bar, then the
/// command line or the cursor placed, and the cursor shown again.
pub open spec fn refresh_spec(
    v: VimView,
    b: BufferView,
    msg: Option<Seq<char>>,
    rows: u16,
    cols: u16,
    welcome: Seq<u8>,
) -> Seq<u8> {
    let tail = match v.mode {
        ModeView::Command(c) => encode_utf8("\r\n\x1b[2K"@) + encode_utf8(":"@) + encode_utf8(c),
        _ => {
            let (y, x) = cursor_spot(b, rows, cols);
            goto_spec(y, x)
        },
    };
    encode_utf8("\x1b[?25l"@) + encode_utf8("\x1b[H"@) + screen_lines(b, rows as nat, rows, cols, welcome)
        + status_bar_spec(
        status_text(
            mode_of(v.mode),
            b.name,
            b.cur_line as nat,
            b.cur_col as nat,
            b.dirty,
            msg,
        ),
        cols,
    ) + tail + encode_utf8("\x1b[?25h"@)
}

/// Redraws the screen: the bytes to write to the terminal. Outside command
/// mode the buffer is scrolled so that the cursor is in view.
pub fn refresh_screen(
    v: &Vim,
    buf: &mut Buffer,
    status: &StatusMessage,
    rows: u16,
    cols: u16,
    name: &str,
    version: &str,
) -> (r: Vec<u8>)
    requires
        refresh_ok(v.state_view(), old(buf)@, rows, cols),
    ensures
        r@ == refresh_spec(
            v.state_view(),
            old(buf)@,
            status.message(),
            rows,
            cols,
            banner(name@, version@),
        ),
        final(buf)@ == (if v.state_view().mode is Command {
            old(buf)@
        } else {
            scrolled(old(buf)@, rows, cols)
        }),
{
    let mut out: Vec<u8> = Vec::new();
    append_str(&mut out, "\x1b[?25l");
    append_str(&mut out, "\x1b[H");
    let lines = draw_rows(buf, rows, cols, name, version);
    append(&mut out, lines.as_slice());
    let bar = draw_status_bar(v.mode(), buf, status, cols);
    append(&mut out, bar.as_slice());
    match v.command_str() {
        Some(commandline) => {
            append_str(&mut out, "\r\n\x1b[2K");
            append_str(&mut out, ":");
            append_str(&mut out, commandline);
        },
        None => {
            let (cy, cx) = buf.cursor(rows, cols);
            append_str(&mut out, "\x1b[");
            append_decimal(&mut out, (cy + 1) as usize);
            out.push(';' as u8);
            append_decimal(&mut out, (cx + 1) as usize);
            out.push('H' as u8);
        },
    }
    append_str(&mut out, "\x1b[?25h");
    out
}

/// Whether `refresh_screen` can run: checks `refresh_ok`, placing the
/// cursor in a copy of the buffer.
pub fn can_refresh(v: &Vim, buf: &Buffer, rows: u16, cols: u16) -> (r: bool)
    ensures
        r == refresh_ok(v.state_view(), buf@, rows, cols),
{
    let (line, col) = buf.position().destruct();
    proof {
        crate::location::Location::lemma_mk(buf@.cur_line, buf@.cur_col);
    }
    if !(buf.row_offset() <= usize::MAX - rows as usize && buf.col_offset() <= usize::MAX
        - cols as usize && line < usize::MAX && col < usize::MAX) {
        return false;
    }
    if v.command_str().is_some() {
        return true;
    }
    if !buf.can_place_cursor(rows, cols) {
        return false;
    }
    let mut b = buf.duplicate();
    let (cy, cx) = b.cursor(rows, cols);
    cy < u16::MAX && cx < u16::MAX
}

} // verus!
