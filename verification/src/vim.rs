//! The modal editing rules: modes, registers, commands and key mappings.
use crate::bindings::{
    arrow_bindings, bind_key, bind_keys, bindings_ok, command_table, insert_table,
    lemma_mode_tables_ok, lemma_short_conflict, lemma_table_map_dom, lemma_table_map_entry,
    mode_table, motion_bindings, normal_table, short_conflict, table_map, table_view,
    visual_table, MotionUse,
};
use crate::buffer::{delete_range_spec, range_next_ok, range_spec, save_spec, Buffer, BufferView};
use crate::input::{ctrl_key, CursorDirection, Input};
use crate::small::{queue_as_slice, queue_clear, queue_new, queue_push, queued, InputQueue};
use crate::trie::{is_proper_prefix, lemma_insert_ok, GetResult, Trie, Walk};
use core::ops::ControlFlow;
use crate::motion::{backward_target, forward_ok, forward_target, BigBack, BigWord, Back, Motion, Word, WordClass};
use crate::location::{loc_lt, Location};
use crate::text::{
    chars_eq, lines_acc, lines_spec, parse_usize, parse_usize_spec, pop_char, push_char, split_lines,
    string_from_chars, strings_view, trim_chars, trim_spec,
};
use vstd::string::StringSliceAdditionalSpecFns;
use vstd::utf8::encode_utf8;
use vstd::prelude::*;

verus! {

#[derive(PartialEq, Eq, Structural, Clone, Copy, Debug, Default)]
pub enum Mode {
    #[default]
    Normal,
    Insert,
    Visual,
    Command,
}

/// The name of a mode as the status bar shows it.
pub open spec fn mode_name(m: Mode) -> Seq<char> {
    match m {
        Mode::Normal => "NORMAL"@,
        Mode::Insert => "INSERT"@,
        Mode::Visual => "VISUAL"@,
        Mode::Command => "COMMAND"@,
    }
}

impl Mode {
    pub fn str(&self) -> (r: &'static str)
        ensures
            r@ == mode_name(*self),
    {
        match self {
            Mode::Normal => "NORMAL",
            Mode::Insert => "INSERT",
            Mode::Visual => "VISUAL",
            Mode::Command => "COMMAND",
        }
    }
}

/// A mode with what it holds, as the contracts see it.
pub enum ModeView {
    Normal,
    Insert,
    Visual,
    Command(Seq<char>),
}

/// The mode a mode state is in.
pub open spec fn mode_of(m: ModeView) -> Mode {
    match m {
        ModeView::Normal => Mode::Normal,
        ModeView::Insert => Mode::Insert,
        ModeView::Visual => Mode::Visual,
        ModeView::Command(_) => Mode::Command,
    }
}

/// The current mode, and in command mode the command line typed so far.
#[derive(Debug, Default, PartialEq, Eq)]
pub enum ModeState {
    #[default]
    Normal,
    Insert,
    Visual,
    Command { cmdline: String },
}

impl ModeState {
    pub open spec fn view(&self) -> ModeView {
        match self {
            ModeState::Normal => ModeView::Normal,
            ModeState::Insert => ModeView::Insert,
            ModeState::Visual => ModeView::Visual,
            ModeState::Command { cmdline } => ModeView::Command(cmdline@),
        }
    }

    /// The mode this state is in.
    pub fn mode(&self) -> (r: Mode)
        ensures
            r == mode_of(self.view()),
    {
        match self {
            ModeState::Normal => Mode::Normal,
            ModeState::Insert => Mode::Insert,
            ModeState::Visual => Mode::Visual,
            ModeState::Command { .. } => Mode::Command,
        }
    }

    /// The state a mode starts in; command mode starts with an empty line.
    pub fn from_mode(m: Mode) -> (r: Self)
        ensures
            r.view() == start_state(m),
    {
        match m {
            Mode::Normal => ModeState::Normal,
            Mode::Insert => ModeState::Insert,
            Mode::Visual => ModeState::Visual,
            Mode::Command => ModeState::Command { cmdline: String::new() },
        }
    }
}

/// The state a mode starts in.
pub open spec fn start_state(m: Mode) -> ModeView {
    match m {
        Mode::Normal => ModeView::Normal,
        Mode::Insert => ModeView::Insert,
        Mode::Visual => ModeView::Visual,
        Mode::Command => ModeView::Command(Seq::empty()),
    }
}

/// A register's text, and whether it was taken as whole lines.
#[derive(Debug, PartialEq, Eq)]
pub struct RegisterEntry {
    value: String,
    yanked_linewise: bool,
}

impl RegisterEntry {
    pub closed spec fn value_view(&self) -> Seq<char> {
        self.value@
    }

    pub closed spec fn linewise(&self) -> bool {
        self.yanked_linewise
    }

    /// A register holding `value`, not taken as whole lines.
    pub fn new(value: String) -> (r: Self)
        ensures
            r.value_view() == value@,
            !r.linewise(),
    {
        Self { value, yanked_linewise: false }
    }

    /// The register's text.
    pub fn value(&self) -> (r: &str)
        ensures
            r@ == self.value_view(),
    {
        self.value.as_str()
    }

    /// The register's characters, in order.
    pub fn chars(&self) -> (r: Vec<char>)
        ensures
            r@ == self.value_view(),
    {
        crate::buffer::str_chars(self.value.as_str())
    }

    pub fn is_linewise(&self) -> (r: bool)
        ensures
            r == self.linewise(),
    {
        self.yanked_linewise
    }
}

/// The registers; only the unnamed register `"` exists.
#[derive(Debug, PartialEq)]
pub struct RegisterFile {
    unnamed: RegisterEntry,
}

impl RegisterFile {
    pub closed spec fn unnamed_view(&self) -> RegisterEntry {
        self.unnamed
    }

    /// currently only unnamed (") is supported
    pub fn get_register(&self, name: char) -> (r: &RegisterEntry)
        requires
            name == '"',
        ensures
            *r == self.unnamed_view(),
    {
        &self.unnamed
    }

    /// currently only unnamed (") is supported
    pub fn set_register(&mut self, name: char, s: String, linewise: bool)
        requires
            name == '"',
        ensures
            final(self).unnamed_view().value_view() == s@,
            final(self).unnamed_view().linewise() == linewise,
    {
        self.unnamed = RegisterEntry { value: s, yanked_linewise: linewise };
    }

    fn new() -> (r: Self)
        ensures
            r.unnamed_view().value_view() == Seq::<char>::empty(),
            !r.unnamed_view().linewise(),
    {
        Self { unnamed: RegisterEntry::new(String::new()) }
    }
}

/// Work that a command leaves for the program around the editor: writing
/// the buffer's text to a file, or running a shell command.
#[derive(Debug, PartialEq, Eq)]
pub enum Effect {
    Write { path: String, contents: String },
    Shell { command: String },
}

pub enum EffectView {
    Write(Seq<char>, Seq<char>),
    Shell(Seq<char>),
}

impl Effect {
    pub open spec fn view(&self) -> EffectView {
        match self {
            Effect::Write { path, contents } => EffectView::Write(path@, contents@),
            Effect::Shell { command } => EffectView::Shell(command@),
        }
    }
}

pub open spec fn effects_view(v: Seq<Effect>) -> Seq<EffectView> {
    v.map_values(|e: Effect| e.view())
}

/// The editor's state besides the buffer, as the contracts see it.
pub struct VimView {
    pub mode: ModeView,
    pub quit: bool,
    pub reg: Seq<char>,
    pub linewise: bool,
    pub effects: Seq<EffectView>,
}

/// The state a new editor starts in: normal mode, not quitting, an empty
/// register, no work left.
pub open spec fn initial_view() -> VimView {
    VimView {
        mode: ModeView::Normal,
        quit: false,
        reg: Seq::empty(),
        linewise: false,
        effects: Seq::empty(),
    }
}

/// The mode, whether to quit, the registers, and the work left for the
/// program around the editor.
pub struct VimState {
    mode: ModeState,
    quit: bool,
    registers: RegisterFile,
    pending: Vec<Effect>,
}

/// What a command line asks for.
pub enum Command {
    WriteQuit,
    Write,
    Quit,
    File(Seq<char>),
    Shell(Seq<char>),
    Seek(usize),
    Unknown,
}

/// How a trimmed command line is read: `wq`/`wqa`, `w`, `q`/`q!`/`qa`/`qa!`,
/// `f NAME`, `!COMMAND`, a line number, or anything else.
pub open spec fn command_of(t: Seq<char>) -> Command {
    if t == seq!['w', 'q'] || t == seq!['w', 'q', 'a'] {
        Command::WriteQuit
    } else if t == seq!['w'] {
        Command::Write
    } else if t == seq!['q', 'a'] || t == seq!['q', 'a', '!'] || t == seq!['q'] || t == seq![
        'q',
        '!',
    ] {
        Command::Quit
    } else if t.len() >= 2 && t[0] == 'f' && t[1] == ' ' {
        Command::File(t.skip(2))
    } else if t.len() >= 1 && t[0] == '!' {
        Command::Shell(t.skip(1))
    } else {
        match parse_usize_spec(t) {
            Some(n) => Command::Seek(n),
            None => Command::Unknown,
        }
    }
}

/// Writing the buffer: without a path nothing happens; with one the buffer
/// is marked clean and its text is handed out to be written there.
pub open spec fn write_spec(buf: BufferView, st: VimView) -> (BufferView, VimView) {
    match buf.path {
        None => (buf, st),
        Some(p) => (
            BufferView { dirty: false, ..buf },
            VimView { effects: st.effects.push(EffectView::Write(p, save_spec(buf.rows))), ..st },
        ),
    }
}

/// Running the command line `cmdline`: the mode goes back to normal, then
/// the command acts.
pub open spec fn run_command(buf: BufferView, st: VimView, cmdline: Seq<char>) -> (
    BufferView,
    VimView,
) {
    let st0 = VimView { mode: ModeView::Normal, ..st };
    match command_of(trim_spec(cmdline)) {
        Command::WriteQuit => {
            let (b, s) = write_spec(buf, st0);
            (b, VimView { quit: true, ..s })
        },
        Command::Write => write_spec(buf, st0),
        Command::Quit => (buf, VimView { quit: true, ..st0 }),
        Command::File(name) => (BufferView { path: Some(name), name, ..buf }, st0),
        Command::Shell(c) => (buf, VimView { effects: st0.effects.push(EffectView::Shell(c)), ..st0 }),
        Command::Seek(line) => (buf.positioned(line, buf.cur_col), st0),
        Command::Unknown => (buf, st0),
    }
}

/// Moves the cursor to line `line`, keeping its column where the line allows.
fn buf_seek_line(buf: &mut Buffer, line: usize)
    ensures
        final(buf)@ == old(buf)@.positioned(line, old(buf)@.cur_col),
{
    let cur = buf.position();
    proof {
        Location::lemma_mk(old(buf)@.cur_line, old(buf)@.cur_col);
    }
    buf.set_position(line, cur.col());
}

impl VimState {
    pub closed spec fn view(&self) -> VimView {
        VimView {
            mode: self.mode.view(),
            quit: self.quit,
            reg: self.registers.unnamed_view().value_view(),
            linewise: self.registers.unnamed_view().linewise(),
            effects: effects_view(self.pending@),
        }
    }

    pub fn new() -> (r: Self)
        ensures
            r.view() == initial_view(),
    {
        let r = Self {
            mode: ModeState::Normal,
            quit: false,
            registers: RegisterFile::new(),
            pending: Vec::new(),
        };
        assert(effects_view(r.pending@) =~= Seq::<EffectView>::empty());
        r
    }

    pub fn registers(&self) -> (r: &RegisterFile)
        ensures
            r.unnamed_view().value_view() == self.view().reg,
            r.unnamed_view().linewise() == self.view().linewise,
    {
        &self.registers
    }

    /// Hands out the work that commands have left, oldest first, and
    /// forgets it.
    pub fn take_effects(&mut self) -> (r: Vec<Effect>)
        ensures
            effects_view(r@) == old(self).view().effects,
            final(self).view() == (VimView { effects: Seq::empty(), ..old(self).view() }),
    {
        let mut r: Vec<Effect> = Vec::new();
        std::mem::swap(&mut r, &mut self.pending);
        assert(effects_view(self.pending@) =~= Seq::<EffectView>::empty());
        r
    }

    fn push_effect(&mut self, e: Effect)
        ensures
            final(self).view() == (VimView {
                effects: old(self).view().effects.push(e.view()),
                ..old(self).view()
            }),
    {
        let ghost ev = e.view();
        self.pending.push(e);
        assert(effects_view(self.pending@) =~= effects_view(old(self).pending@).push(ev));
    }

    fn write(&mut self, buf: &mut Buffer)
        ensures
            (final(buf)@, final(self).view()) == write_spec(old(buf)@, old(self).view()),
    {
        let path = match buf.path() {
            Some(p) => p.to_owned(),
            None => {
                return;
            },
        };
        buf.scrub();
        let s = buf.save();
        self.push_effect(Effect::Write { path, contents: s });
    }

    fn execute_cmd(&mut self, buf: &mut Buffer)
        requires
            old(self).view().mode is Command,
        ensures
            (final(buf)@, final(self).view()) == run_command(
                old(buf)@,
                old(self).view(),
                old(self).view().mode->Command_0,
            ),
    {
        let mut mode = ModeState::Normal;
        std::mem::swap(&mut mode, &mut self.mode);
        let cmdline = match mode {
            ModeState::Command { cmdline } => cmdline,
            _ => {
                proof {
                    assert(false);
                }
                String::new()
            },
        };
        let chars = crate::buffer::str_chars(cmdline.as_str());
        let tv = trim_chars(chars.as_slice());
        let t = tv.as_slice();
        let wq: &[char] = &['w', 'q'];
        let wqa: &[char] = &['w', 'q', 'a'];
        let w: &[char] = &['w'];
        let qa: &[char] = &['q', 'a'];
        let qa_bang: &[char] = &['q', 'a', '!'];
        let q: &[char] = &['q'];
        let q_bang: &[char] = &['q', '!'];
        assert(wq@ == seq!['w', 'q'] && wqa@ == seq!['w', 'q', 'a'] && w@ == seq!['w']);
        assert(qa@ == seq!['q', 'a'] && qa_bang@ == seq!['q', 'a', '!'] && q@ == seq!['q'] && q_bang@
            == seq!['q', '!']);
        if chars_eq(t, wq) || chars_eq(t, wqa) {
            self.write(buf);
            self.quit = true;
        } else if chars_eq(t, w) {
            self.write(buf);
        } else if chars_eq(t, qa) || chars_eq(t, qa_bang) || chars_eq(t, q) || chars_eq(t, q_bang) {
            self.quit = true;
        } else if t.len() >= 2 && t[0] == 'f' && t[1] == ' ' {
            let filename = string_from_chars(slice_skip(t, 2).as_slice());
            buf.set_path(filename.clone());
            buf.set_name(filename);
        } else if t.len() >= 1 && t[0] == '!' {
            let command = string_from_chars(slice_skip(t, 1).as_slice());
            self.push_effect(Effect::Shell { command });
        } else if let Some(line) = parse_usize(t) {
            buf_seek_line(buf, line);
        }
    }

    fn set_mode(&mut self, mode: ModeState, buf: &mut Buffer)
        ensures
            final(buf)@ == (BufferView { go_past_end: mode.view() is Insert, ..old(buf)@ }),
            final(self).view() == (VimView { mode: mode.view(), ..old(self).view() }),
    {
        match mode {
            ModeState::Normal | ModeState::Visual | ModeState::Command { .. } => {
                buf.set_go_past_end(false)
            },
            ModeState::Insert => buf.set_go_past_end(true),
        }
        self.mode = mode;
    }
}

/// The characters of `s` from `from` on.
fn slice_skip(s: &[char], from: usize) -> (r: Vec<char>)
    requires
        from <= s@.len(),
    ensures
        r@ == s@.skip(from as int),
{
    let mut r: Vec<char> = Vec::new();
    let n = s.len();
    let mut i = from;
    while i < n
        invariant
            from <= i <= n,
            n == s@.len(),
            r@ == s@.subrange(from as int, i as int),
        decreases n - i,
    {
        r.push(s[i]);
        i = i + 1;
        assert(r@ == s@.subrange(from as int, i as int));
    }
    r
}

/// Lines joined with a newline between each two.
pub open spec fn join_spec(lines: Seq<Seq<char>>) -> Seq<char>
    decreases lines.len(),
{
    if lines.len() == 0 {
        Seq::empty()
    } else if lines.len() == 1 {
        lines[0]
    } else {
        join_spec(lines.drop_last()).push('\n') + lines.last()
    }
}

fn join_iter(lines: &Vec<&str>) -> (r: String)
    ensures
        r@ == join_spec(lines@.map_values(|s: &str| s@)),
{
    let ghost views = lines@.map_values(|s: &str| s@);
    let mut ret = String::new();
    let mut needs_newline = false;
    let n = lines.len();
    let mut i: usize = 0;
    while i < n
        invariant
            n == lines@.len(),
            i <= n,
            views == lines@.map_values(|s: &str| s@),
            needs_newline == (i > 0),
            ret@ == join_spec(views.take(i as int)),
        decreases n - i,
    {
        assert(views.take(i + 1).drop_last() == views.take(i as int));
        if needs_newline {
            push_char(&mut ret, '\n');
        } else {
            assert(views.take(1) == seq![views[0]]);
        }
        needs_newline = true;
        ret.append(lines[i]);
        i = i + 1;
    }
    assert(views.take(n as int) == views);
    ret
}

/// The two locations in order.
pub open spec fn sorted(start: Location, end: Location) -> (Location, Location) {
    if loc_lt(end, start) {
        (end, start)
    } else {
        (start, end)
    }
}

fn sort_location(start: Location, end: Location) -> (r: (Location, Location))
    ensures
        r == sorted(start, end),
{
    if end.is_before(&start) {
        (end, start)
    } else {
        (start, end)
    }
}

/// Which word motion an action uses.
#[derive(Clone, Copy, PartialEq, Eq, Structural, Debug)]
pub enum MotionKind {
    Word,
    BigWord,
    Back,
    BigBack,
}

/// Where a motion takes the cursor.
pub open spec fn motion_target(k: MotionKind, b: BufferView) -> Option<Location> {
    match k {
        MotionKind::Word => forward_target(b.rows, b.cur_line as int, b.cur_col as int, WordClass::Small),
        MotionKind::BigWord => forward_target(b.rows, b.cur_line as int, b.cur_col as int, WordClass::Big),
        MotionKind::Back => backward_target(b.rows, b.cur_line as int, b.cur_col as int, WordClass::Small),
        MotionKind::BigBack => backward_target(b.rows, b.cur_line as int, b.cur_col as int, WordClass::Big),
    }
}

/// A motion runs without failing.
pub open spec fn motion_ok(k: MotionKind, b: BufferView) -> bool {
    match k {
        MotionKind::Word | MotionKind::BigWord => forward_ok(b),
        _ => true,
    }
}

fn motion_next(k: MotionKind, buf: &Buffer) -> (r: Option<Location>)
    requires
        motion_ok(k, buf@),
    ensures
        r == motion_target(k, buf@),
{
    match k {
        MotionKind::Word => Word::new().next(buf),
        MotionKind::BigWord => BigWord::new().next(buf),
        MotionKind::Back => Back::new().next(buf),
        MotionKind::BigBack => BigBack::new().next(buf),
    }
}

/// What a built-in key mapping does.
#[derive(Clone, Copy, PartialEq, Eq, Structural, Debug)]
pub enum Action {
    /// Enter a mode (command mode with an empty line).
    SetMode(Mode),
    /// Move the cursor one step.
    Move(CursorDirection),
    /// Move the cursor twelve steps (half a page).
    MoveRepeat(CursorDirection),
    /// `gg`: to the first line.
    SeekFirst,
    /// `G`: past the last line.
    SeekLast,
    /// `a`: insert after the cursor.
    Append,
    /// `o`: open an empty line below and insert there.
    OpenLine,
    /// `0`: to the start of the line.
    LineStart,
    /// `$`: to the end of the line.
    LineEnd,
    /// `yy`: copy the line.
    YankLine,
    /// `dd`: cut the line.
    DeleteLine,
    /// `x`: delete the character under the cursor.
    DeleteUnder,
    /// `p`: paste the register.
    Paste,
    /// Move by a word motion.
    MotionMove(MotionKind),
    /// Cut the text a word motion passes over.
    DeleteMotion(MotionKind),
    /// Copy the text a word motion passes over.
    YankMotion(MotionKind),
    /// Backspace in insert mode.
    DeleteChar,
    /// Enter in insert mode.
    Newline,
    /// Enter in command mode: run the command line.
    RunCommand,
    /// Backspace in command mode.
    CommandBackspace,
    /// Nothing (the arrows in command mode).
    Nothing,
}

/// Moving `n` times in direction `d`.
pub open spec fn moved_n(b: BufferView, d: CursorDirection, n: nat) -> BufferView
    decreases n,
{
    if n == 0 {
        b
    } else {
        moved_n(b.moved(d), d, (n - 1) as nat)
    }
}

pub open spec fn moved_n_ok(b: BufferView, d: CursorDirection, n: nat) -> bool
    decreases n,
{
    n == 0 || (b.move_ok(d) && moved_n_ok(b.moved(d), d, (n - 1) as nat))
}

/// One character of a paste: a newline splits the line, anything else is
/// inserted.
pub open spec fn paste_step(b: BufferView, c: char) -> BufferView {
    if c == '\n' {
        b.split_line()
    } else {
        b.with_char(c)
    }
}

pub open spec fn paste_step_ok(b: BufferView, c: char) -> bool {
    if c == '\n' {
        b.cursor_on_line()
    } else {
        b.insert_char_ok()
    }
}

/// Pasting the characters `cs` one by one.
pub open spec fn paste_chars(b: BufferView, cs: Seq<char>) -> BufferView
    decreases cs.len(),
{
    if cs.len() == 0 {
        b
    } else {
        paste_chars(paste_step(b, cs[0]), cs.drop_first())
    }
}

pub open spec fn paste_ok(b: BufferView, cs: Seq<char>) -> bool
    decreases cs.len(),
{
    cs.len() == 0 || (paste_step_ok(b, cs[0]) && paste_ok(paste_step(b, cs[0]), cs.drop_first()))
}

/// The text of the cursor's line, or nothing past the last line.
pub open spec fn cur_row(b: BufferView) -> Seq<char> {
    if b.cur_line < b.rows.len() {
        b.rows[b.cur_line as int]
    } else {
        Seq::empty()
    }
}

/// The range a motion passes over, in order.
pub open spec fn motion_range(b: BufferView, end: Location) -> (Location, Location) {
    sorted(Location::mk(b.cur_line, b.cur_col), end)
}

/// A built-in mapping runs without failing.
pub open spec fn action_ok(a: Action, b: BufferView, s: VimView) -> bool {
    match a {
        Action::Move(d) => b.move_ok(d),
        Action::MoveRepeat(d) => moved_n_ok(b, d, 12),
        Action::Append => b.cur_col < usize::MAX,
        Action::OpenLine => b.cur_line < usize::MAX,
        Action::DeleteLine => b.cur_line < b.rows.len(),
        Action::DeleteUnder => b.cur_col < usize::MAX && b.cur_line < b.rows.len(),
        Action::Paste => if s.linewise {
            b.cur_line < usize::MAX
        } else {
            paste_ok(b, s.reg)
        },
        Action::MotionMove(k) => motion_ok(k, b),
        Action::DeleteMotion(k) => motion_ok(k, b) && match motion_target(k, b) {
            Some(e) => {
                let (st, en) = motion_range(b, e);
                &&& range_next_ok(b.rows, st, en)
                &&& loc_lt(st, en)
                &&& st.line_spec() < b.rows.len()
                &&& en.line_spec() < b.rows.len()
            },
            None => true,
        },
        Action::YankMotion(k) => motion_ok(k, b) && match motion_target(k, b) {
            Some(e) => {
                let (st, en) = motion_range(b, e);
                range_next_ok(b.rows, st, en)
            },
            None => true,
        },
        Action::DeleteChar => b.delete_char_ok(),
        Action::Newline => b.cursor_on_line(),
        Action::RunCommand | Action::CommandBackspace => s.mode is Command,
        _ => true,
    }
}

/// What a built-in mapping does to the buffer and the editor state.
pub open spec fn action_spec(a: Action, b: BufferView, s: VimView) -> (BufferView, VimView) {
    let line = b.cur_line;
    match a {
        Action::SetMode(m) => (
            BufferView { go_past_end: m == Mode::Insert, ..b },
            VimView { mode: start_state(m), ..s },
        ),
        Action::Move(d) => (b.moved(d), s),
        Action::MoveRepeat(d) => (moved_n(b, d, 12), s),
        Action::SeekFirst => (b.positioned(0, b.cur_col), s),
        Action::SeekLast => (b.positioned(b.rows.len() as usize, b.cur_col), s),
        Action::Append => (
            BufferView { go_past_end: true, ..b }.positioned(line, (b.cur_col + 1) as usize),
            VimView { mode: ModeView::Insert, ..s },
        ),
        Action::OpenLine => (
            BufferView {
                go_past_end: true,
                ..b.with_lines((line + 1) as usize, seq![Seq::empty()]).positioned(
                    (line + 1) as usize,
                    0,
                )
            },
            VimView { mode: ModeView::Insert, ..s },
        ),
        Action::LineStart => (b.positioned(line, 0), s),
        Action::LineEnd => (b.positioned(line, encode_utf8(cur_row(b)).len() as usize), s),
        Action::YankLine => (b, VimView { reg: cur_row(b), linewise: true, ..s }),
        Action::DeleteLine => (
            BufferView { rows: b.rows.remove(line as int), ..b },
            VimView { reg: b.rows[line as int], linewise: true, ..s },
        ),
        Action::DeleteUnder => (
            BufferView {
                rows: delete_range_spec(
                    b.rows,
                    Location::mk(line, b.cur_col),
                    Location::mk(line, (b.cur_col + 1) as usize),
                ),
                ..b
            },
            s,
        ),
        Action::Paste => if s.linewise {
            (
                b.with_lines((line + 1) as usize, lines_spec(s.reg)).positioned((line + 1) as usize, 0),
                s,
            )
        } else {
            (paste_chars(b, s.reg), s)
        },
        Action::MotionMove(k) => match motion_target(k, b) {
            Some(e) => (b.positioned(e.line_spec(), e.col_spec()), s),
            None => (b, s),
        },
        Action::DeleteMotion(k) => match motion_target(k, b) {
            Some(e) => {
                let (st, en) = motion_range(b, e);
                (
                    BufferView { rows: delete_range_spec(b.rows, st, en), ..b }.positioned(
                        st.line_spec(),
                        st.col_spec(),
                    ),
                    VimView { reg: join_spec(range_spec(b.rows, st, en)), linewise: false, ..s },
                )
            },
            None => (b, s),
        },
        Action::YankMotion(k) => match motion_target(k, b) {
            Some(e) => {
                let (st, en) = motion_range(b, e);
                (b, VimView { reg: join_spec(range_spec(b.rows, st, en)), linewise: false, ..s })
            },
            None => (b, s),
        },
        Action::DeleteChar => (b.without_char(), s),
        Action::Newline => (b.split_line(), s),
        Action::RunCommand => run_command(b, s, s.mode->Command_0),
        Action::CommandBackspace => {
            let c = s.mode->Command_0;
            if c.len() > 0 {
                (b, VimView { mode: ModeView::Command(c.drop_last()), ..s })
            } else {
                (BufferView { go_past_end: false, ..b }, VimView { mode: ModeView::Normal, ..s })
            }
        },
        Action::Nothing => (b, s),
    }
}

impl VimState {
    fn set_register(&mut self, s: String, linewise: bool)
        ensures
            final(self).view() == (VimView { reg: s@, linewise, ..old(self).view() }),
    {
        self.registers.set_register('"', s, linewise);
    }

    /// Backspace on the command line: removes its last character, or leaves
    /// command mode when it is empty.
    fn command_backspace(&mut self, buf: &mut Buffer)
        requires
            old(self).view().mode is Command,
        ensures
            (final(buf)@, final(self).view()) == action_spec(
                Action::CommandBackspace,
                old(buf)@,
                old(self).view(),
            ),
    {
        let popped = match &mut self.mode {
            ModeState::Command { cmdline } => pop_char(cmdline),
            _ => None,
        };
        if popped.is_none() {
            self.set_mode(ModeState::Normal, buf);
        }
    }

    /// Pastes the register's characters one by one at the cursor.
    fn paste_chars(&self, buf: &mut Buffer)
        requires
            paste_ok(old(buf)@, self.view().reg),
        ensures
            final(buf)@ == paste_chars(old(buf)@, self.view().reg),
    {
        let reg = self.registers.get_register('"');
        let chars = crate::buffer::str_chars(reg.value());
        let n = chars.len();
        let mut i: usize = 0;
        assert(chars@.skip(0) == chars@);
        while i < n
            invariant
                n == chars@.len(),
                i <= n,
                chars@ == self.view().reg,
                paste_chars(old(buf)@, chars@) == paste_chars(buf@, chars@.skip(i as int)),
                paste_ok(buf@, chars@.skip(i as int)),
            decreases n - i,
        {
            let ch = chars[i];
            assert(chars@.skip(i as int)[0] == ch);
            assert(chars@.skip(i as int).drop_first() == chars@.skip(i + 1));
            if ch == '\n' {
                buf.add_newline();
            } else {
                buf.insert_char(ch);
            }
            i = i + 1;
        }
    }
}

/// Runs a built-in mapping.
fn apply_action(action: Action, buf: &mut Buffer, state: &mut VimState)
    requires
        action_ok(action, old(buf)@, old(state).view()),
    ensures
        (final(buf)@, final(state).view()) == action_spec(action, old(buf)@, old(state).view()),
{
    let ghost b0 = buf@;
    proof {
        Location::lemma_mk(b0.cur_line, b0.cur_col);
    }
    match action {
        Action::SetMode(m) => {
            state.set_mode(ModeState::from_mode(m), buf);
        },
        Action::Move(d) => buf.move_cursor(d),
        Action::MoveRepeat(d) => {
            let mut k: usize = 0;
            while k < 12
                invariant
                    k <= 12,
                    moved_n(b0, d, 12) == moved_n(buf@, d, (12 - k) as nat),
                    moved_n_ok(buf@, d, (12 - k) as nat),
                    state.view() == old(state).view(),
                decreases 12 - k,
            {
                buf.move_cursor(d);
                k = k + 1;
            }
        },
        Action::SeekFirst => buf_seek_line(buf, 0),
        Action::SeekLast => {
            let n = buf.num_lines();
            buf_seek_line(buf, n);
        },
        Action::Append => {
            let (line, col) = buf.position().destruct();
            state.set_mode(ModeState::Insert, buf);
            buf.set_position(line, col + 1);
        },
        Action::OpenLine => {
            let line = buf.position().line();
            let mut lines: Vec<String> = Vec::new();
            lines.push(String::new());
            assert(strings_view(lines@) =~= seq![Seq::<char>::empty()]);
            buf.set_lines(line + 1, lines);
            buf.set_position(line + 1, 0);
            state.set_mode(ModeState::Insert, buf);
        },
        Action::LineStart => {
            let line = buf.position().line();
            buf.set_position(line, 0);
        },
        Action::LineEnd => {
            let line = buf.position().line();
            let last = match buf.get_row(line) {
                Some(r) => r.len(),
                None => 0,
            };
            buf.set_position(line, last);
        },
        Action::YankLine => {
            let line = buf.position().line();
            let text = match buf.get_row(line) {
                Some(r) => r.to_owned(),
                None => String::new(),
            };
            state.set_register(text, true);
        },
        Action::DeleteLine => {
            let line = buf.position().line();
            let content = buf.remove_line(line);
            state.set_register(content, true);
        },
        Action::DeleteUnder => {
            let pos = buf.position();
            let end = Location::new(pos.line(), pos.col() + 1);
            buf.delete_range(pos, end);
        },
        Action::Paste => {
            let line = buf.position().line();
            let reg = state.registers.get_register('"');
            if reg.is_linewise() {
                let lines = split_lines(reg.value());
                buf.set_lines(line + 1, lines);
                buf.set_position(line + 1, 0);
                return;
            }
            state.paste_chars(buf);
        },
        Action::MotionMove(k) => {
            if let Some(next) = motion_next(k, buf) {
                buf.set_position(next.line(), next.col());
            }
        },
        Action::DeleteMotion(k) => {
            let start = buf.position();
            let end = match motion_next(k, buf) {
                Some(e) => e,
                None => {
                    return;
                },
            };
            let (start, end) = sort_location(start, end);
            let s = join_iter(&buf.get_range(start, end).collect_lines());
            buf.delete_range(start, end);
            buf.set_position(start.line(), start.col());
            state.set_register(s, false);
        },
        Action::YankMotion(k) => {
            let start = buf.position();
            let end = match motion_next(k, buf) {
                Some(e) => e,
                None => {
                    return;
                },
            };
            let (start, end) = sort_location(start, end);
            let s = join_iter(&buf.get_range(start, end).collect_lines());
            state.set_register(s, false);
        },
        Action::DeleteChar => buf.delete_char(),
        Action::Newline => buf.add_newline(),
        Action::RunCommand => state.execute_cmd(buf),
        Action::CommandBackspace => state.command_backspace(buf),
        Action::Nothing => {},
    }
}

impl VimState {
    /// Appends a typed character to the command line.
    fn command_push(&mut self, ch: Input)
        requires
            old(self).view().mode is Command,
            ch is Char,
        ensures
            final(self).view() == (VimView {
                mode: ModeView::Command(old(self).view().mode->Command_0.push(ch->Char_0)),
                ..old(self).view()
            }),
    {
        if let Input::Char(c) = ch {
            match &mut self.mode {
                ModeState::Command { cmdline } => push_char(cmdline, c),
                _ => {},
            }
        }
    }
}

/// What a user mapping receives: the buffer and the editor state. The
/// fields are private, so a mapping written outside this crate cannot reach
/// either through it.
pub struct MapArgs<'a> {
    buf: &'a mut Buffer,
    state: &'a mut VimState,
}

impl<'a> MapArgs<'a> {
    /// Arguments that lend out `buf` and `state`: what the mapping leaves in
    /// them is what they hold afterwards.
    fn new(buf: &'a mut Buffer, state: &'a mut VimState) -> (r: Self)
        ensures
            *r.buf == *old(buf),
            *r.state == *old(state),
            *final(buf) == *final(r.buf),
            *final(state) == *final(r.state),
    {
        Self { buf, state }
    }
}

/// A mapping supplied by a user of the library: a boxed closure over
/// `MapArgs`. Verus cannot hold a boxed closure, so the box is hidden.
#[verifier::external_body]
pub struct UserMapping {
    f: Box<dyn Fn(MapArgs)>,
}

impl UserMapping {
    /// Boxes the closure `f`; nothing is claimed of the result.
    #[verifier::external_body]
    fn new<F: Fn(MapArgs) + 'static>(f: F) -> Self {
        UserMapping { f: Box::new(f) }
    }

    /// Calls the closure with the buffer and the state. The closure is the
    /// caller's code: nothing is claimed of what it leaves in them.
    #[verifier::external_body]
    fn call(&self, buf: &mut Buffer, state: &mut VimState) {
        (self.f)(MapArgs::new(buf, state))
    }
}

/// What a key sequence is mapped to: a built-in action or a user's closure.
pub enum Binding {
    Builtin(Action),
    Custom(UserMapping),
}

/// The binding a table gives a key sequence.
pub open spec fn table_binding(t: Seq<(Seq<Input>, Action)>, k: Seq<Input>) -> Option<Binding> {
    if table_map(t).dom().contains(k) {
        Some(Binding::Builtin(table_map(t)[k]))
    } else {
        None
    }
}

/// A keymap that holds nothing.
pub open spec fn keymap_empty(t: Trie<Input, Binding>) -> bool {
    &&& forall|k: Seq<Input>| #[trigger] t.value_at(k) is None
    &&& forall|k: Seq<Input>| #[trigger] t.has_node(k) <==> k.len() == 0
}

/// A keymap that holds exactly the mappings of a table: each key sequence
/// of the table leads to its action, the proper prefixes of those lead
/// further, and nothing else leads anywhere.
pub open spec fn keymap_holds(t: Trie<Input, Binding>, tbl: Seq<(Seq<Input>, Action)>) -> bool {
    &&& forall|k: Seq<Input>| #[trigger] t.value_at(k) == table_binding(tbl, k)
    &&& forall|k: Seq<Input>|
        #[trigger] t.has_node(k) <==> (k.len() == 0 || exists|j: int|
            0 <= j < tbl.len() && is_proper_prefix(k, #[trigger] tbl[j].0))
}

/// The buffer as a key in mode `m` finds it: the cursor may stand past the
/// end of a line in insert mode only.
pub open spec fn in_mode(b: BufferView, m: Mode) -> BufferView {
    BufferView { go_past_end: m == Mode::Insert, ..b }
}

/// A key that no mapping takes runs without failing: in command mode it
/// must be a character, in insert mode a character must be insertable.
pub open spec fn fallback_ok(m: Mode, b: BufferView, ch: Input) -> bool {
    match m {
        Mode::Insert => ch is Char ==> b.insert_char_ok(),
        Mode::Command => ch is Char,
        _ => true,
    }
}

/// What a key that no mapping takes does: in insert mode a character is
/// inserted, in command mode it is added to the command line; anything else
/// is ignored.
pub open spec fn fallback_spec(m: Mode, ch: Input, b: BufferView, s: VimView) -> (BufferView, VimView) {
    match ch {
        Input::Char(c) => match m {
            Mode::Insert => (b.with_char(c), s),
            Mode::Command => (b, VimView { mode: ModeView::Command(s.mode->Command_0.push(c)), ..s }),
            _ => (b, s),
        },
        _ => (b, s),
    }
}

/// The editor: its state, the keys typed towards a mapping so far, and the
/// keymap of each mode.
pub struct Vim {
    state: VimState,
    cur_input: InputQueue,
    normal_keymaps: Trie<Input, Binding>,
    insert_keymaps: Trie<Input, Binding>,
    visual_keymaps: Trie<Input, Binding>,
    command_keymaps: Trie<Input, Binding>,
}

impl Vim {
    /// The keymap of mode `m`.
    pub closed spec fn keymap(self, m: Mode) -> Trie<Input, Binding> {
        match m {
            Mode::Normal => self.normal_keymaps,
            Mode::Insert => self.insert_keymaps,
            Mode::Visual => self.visual_keymaps,
            Mode::Command => self.command_keymaps,
        }
    }

    /// The keys typed so far towards a mapping.
    pub closed spec fn pending(self) -> Seq<Input> {
        queued(self.cur_input)
    }

    /// The mode, registers and left work.
    pub closed spec fn state_view(self) -> VimView {
        self.state.view()
    }

    /// `handle_input(buf, ch)` runs without failing on a buffer `b`: the
    /// mapping that the keys reach must be able to run, or, where none is
    /// reached, the key must be one the mode can take.
    pub open spec fn input_ok(self, b: BufferView, ch: Input) -> bool {
        let s = self.state_view();
        let m = mode_of(s.mode);
        match self.keymap(m).root_node().walk(self.pending().push(ch)) {
            Walk::Leaf(Binding::Builtin(a)) => action_ok(a, in_mode(b, m), s),
            Walk::Missing => fallback_ok(m, in_mode(b, m), ch),
            _ => true,
        }
    }

    /// What `handle_input(buf, ch)` does, from this editor and the buffer
    /// `b` to the editor `after`, the buffer `b2` and the result `r`. The
    /// buffer's cursor rule is set to the mode's; the keys typed so far wait
    /// while they lead on towards mappings; a built-in mapping they reach
    /// runs as `action_spec` says, a user's mapping runs as the user wrote
    /// it; keys that lead nowhere are taken as `fallback_spec` says. The
    /// keymaps stay, and the result says whether to quit.
    pub open spec fn input_spec(
        self,
        b: BufferView,
        ch: Input,
        after: Vim,
        b2: BufferView,
        r: ControlFlow<()>,
    ) -> bool {
        let s = self.state_view();
        let m = mode_of(s.mode);
        let bm = in_mode(b, m);
        let keys = self.pending().push(ch);
        &&& match self.keymap(m).root_node().walk(keys) {
            Walk::Node(_) => {
                &&& after.pending() == keys
                &&& b2 == bm
                &&& after.state_view() == s
            },
            Walk::Leaf(Binding::Builtin(a)) => {
                &&& after.pending() == Seq::<Input>::empty()
                &&& (b2, after.state_view()) == action_spec(a, bm, s)
            },
            Walk::Leaf(Binding::Custom(_)) => after.pending() == Seq::<Input>::empty(),
            Walk::Missing => {
                &&& after.pending() == Seq::<Input>::empty()
                &&& (b2, after.state_view()) == fallback_spec(m, ch, bm, s)
            },
        }
        &&& forall|m2: Mode| #[trigger] after.keymap(m2) == self.keymap(m2)
        &&& r == (if after.state_view().quit {
            ControlFlow::<()>::Break(())
        } else {
            ControlFlow::<()>::Continue(())
        })
    }

    /// An editor with no mappings.
    pub fn bare() -> (r: Self)
        ensures
            forall|m: Mode| keymap_empty(#[trigger] r.keymap(m)),
            r.pending() == Seq::<Input>::empty(),
            r.state_view() == initial_view(),
    {
        Self {
            state: VimState::new(),
            cur_input: queue_new(),
            normal_keymaps: Trie::new(),
            insert_keymaps: Trie::new(),
            visual_keymaps: Trie::new(),
            command_keymaps: Trie::new(),
        }
    }

    /// An editor with the built-in mappings of every mode.
    pub fn new() -> (r: Self)
        ensures
            forall|m: Mode| keymap_holds(#[trigger] r.keymap(m), mode_table(m)),
            r.pending() == Seq::<Input>::empty(),
            r.state_view() == initial_view(),
    {
        let mut ret = Self::bare();
        ret.configure_normal_mode();
        ret.configure_insert_mode();
        ret.configure_command_mode();
        ret.configure_visual_mode();
        proof {
            assert forall|m: Mode| keymap_holds(#[trigger] ret.keymap(m), mode_table(m)) by {
                match m {
                    Mode::Normal => {},
                    Mode::Insert => {},
                    Mode::Visual => {},
                    Mode::Command => {},
                }
            }
        }
        ret
    }

    /// The command line typed so far, in command mode.
    pub fn command_str(&self) -> (r: Option<&str>)
        ensures
            match self.state_view().mode {
                ModeView::Command(c) => r matches Some(s) && s@ == c,
                _ => r is None,
            },
    {
        match &self.state.mode {
            ModeState::Command { cmdline } => Some(cmdline.as_str()),
            _ => None,
        }
    }

    /// The current mode.
    pub fn mode(&self) -> (r: Mode)
        ensures
            r == mode_of(self.state_view().mode),
    {
        self.state.mode.mode()
    }

    /// The mode, registers and left work.
    pub fn state(&self) -> (r: &VimState)
        ensures
            r.view() == self.state_view(),
    {
        &self.state
    }

    /// Hands out the work that commands have left, oldest first.
    pub fn take_effects(&mut self) -> (r: Vec<Effect>)
        ensures
            effects_view(r@) == old(self).state_view().effects,
            final(self).state_view() == (VimView { effects: Seq::empty(), ..old(self).state_view() }),
            final(self).pending() == old(self).pending(),
            forall|m: Mode| #[trigger] final(self).keymap(m) == old(self).keymap(m),
    {
        self.state.take_effects()
    }

    /// Stores `b` under `keys` in the keymap of mode `m`.
    fn add_binding(&mut self, m: Mode, keys: Vec<Input>, b: Binding)
        requires
            old(self).keymap(m).root_node().insert_ok(keys@),
        ensures
            final(self).keymap(m).value_at(keys@) == Some(b),
            forall|k2: Seq<Input>|
                k2 != keys@ ==> #[trigger] final(self).keymap(m).value_at(k2) == old(self).keymap(
                    m,
                ).value_at(k2),
            forall|k2: Seq<Input>|
                #[trigger] final(self).keymap(m).has_node(k2) <==> (old(self).keymap(m).has_node(k2)
                    || is_proper_prefix(k2, keys@)),
            forall|m2: Mode| m2 != m ==> #[trigger] final(self).keymap(m2) == old(self).keymap(m2),
            final(self).pending() == old(self).pending(),
            final(self).state_view() == old(self).state_view(),
    {
        match m {
            Mode::Normal => {
                self.normal_keymaps.insert(keys, b);
            },
            Mode::Insert => {
                self.insert_keymaps.insert(keys, b);
            },
            Mode::Visual => {
                self.visual_keymaps.insert(keys, b);
            },
            Mode::Command => {
                self.command_keymaps.insert(keys, b);
            },
        }
    }

    /// Whether `add_keymap(mode, mapping, _)` can run: `mapping` is not
    /// empty, does not lead on to other mappings, and no proper prefix of it
    /// is mapped.
    pub fn can_add_keymap(&self, mode: Mode, mapping: &[Input]) -> (r: bool)
        ensures
            r == self.keymap(mode).root_node().insert_ok(mapping@),
    {
        match mode {
            Mode::Normal => self.normal_keymaps.can_insert(mapping),
            Mode::Insert => self.insert_keymaps.can_insert(mapping),
            Mode::Visual => self.visual_keymaps.can_insert(mapping),
            Mode::Command => self.command_keymaps.can_insert(mapping),
        }
    }

    /// Maps the keys `mapping` in mode `mode` to the closure `action`.
    pub fn add_keymap<F: Fn(MapArgs) + 'static>(&mut self, mode: Mode, mapping: Vec<Input>, action: F)
        requires
            old(self).keymap(mode).root_node().insert_ok(mapping@),
        ensures
            final(self).keymap(mode).value_at(mapping@) matches Some(Binding::Custom(_)),
            forall|k2: Seq<Input>|
                k2 != mapping@ ==> #[trigger] final(self).keymap(mode).value_at(k2) == old(
                    self,
                ).keymap(mode).value_at(k2),
            forall|k2: Seq<Input>|
                #[trigger] final(self).keymap(mode).has_node(k2) <==> (old(self).keymap(
                    mode,
                ).has_node(k2) || is_proper_prefix(k2, mapping@)),
            forall|m2: Mode|
                m2 != mode ==> #[trigger] final(self).keymap(m2) == old(self).keymap(m2),
            final(self).pending() == old(self).pending(),
            final(self).state_view() == old(self).state_view(),
    {
        self.add_binding(mode, mapping, Binding::Custom(UserMapping::new(action)));
    }

    /// Stores every mapping of `table` in the empty keymap of mode `m`.
    fn add_table(&mut self, m: Mode, table: Vec<(Vec<Input>, Action)>)
        requires
            keymap_empty(old(self).keymap(m)),
            bindings_ok(table_view(table@)),
        ensures
            keymap_holds(final(self).keymap(m), table_view(table@)),
            forall|m2: Mode| m2 != m ==> #[trigger] final(self).keymap(m2) == old(self).keymap(m2),
            final(self).pending() == old(self).pending(),
            final(self).state_view() == old(self).state_view(),
    {
        let ghost tv0 = table_view(table@);
        let mut table = table;
        assert(tv0.skip(tv0.len() as int) =~= Seq::<(Seq<Input>, Action)>::empty());
        assert(tv0.take(tv0.len() as int) =~= tv0);
        while table.len() > 0
            invariant
                bindings_ok(tv0),
                table@.len() <= tv0.len(),
                table_view(table@) == tv0.take(table@.len() as int),
                keymap_holds(self.keymap(m), tv0.skip(table@.len() as int)),
                forall|m2: Mode| m2 != m ==> #[trigger] self.keymap(m2) == old(self).keymap(m2),
                self.pending() == old(self).pending(),
                self.state_view() == old(self).state_view(),
            decreases table@.len(),
        {
            let ghost n = table@.len() - 1;
            let ghost before = table@;
            let (keys, a) = table.pop().unwrap();
            let ghost t = self.keymap(m);
            let ghost rest = tv0.skip(n + 1);
            proof {
                assert(table_view(before)[n] == tv0.take(n + 1)[n]);
                assert(tv0[n] == (keys@, a));
                assert(table_view(table@) =~= tv0.take(n));
                assert(!t.has_node(keys@)) by {
                    if t.has_node(keys@) {
                        assert(keys@.len() > 0) by {
                            assert(tv0[n].0.len() >= 1);
                        }
                        let j = choose|j: int|
                            0 <= j < rest.len() && is_proper_prefix(keys@, #[trigger] rest[j].0);
                        assert(rest[j] == tv0[n + 1 + j]);
                        assert(!short_conflict(tv0[n].0, tv0[n + 1 + j].0));
                        lemma_short_conflict(tv0[n].0, tv0[n + 1 + j].0);
                    }
                }
                assert forall|i: int| 1 <= i < keys@.len() implies #[trigger] t.value_at(
                    keys@.take(i),
                ) is None by {
                    let p = keys@.take(i);
                    lemma_table_map_dom(rest, p);
                    if table_map(rest).dom().contains(p) {
                        let j = choose|j: int| 0 <= j < rest.len() && #[trigger] rest[j].0 == p;
                        assert(rest[j] == tv0[n + 1 + j]);
                        assert(is_proper_prefix(p, keys@));
                        assert(!short_conflict(tv0[n + 1 + j].0, tv0[n].0));
                        lemma_short_conflict(tv0[n + 1 + j].0, tv0[n].0);
                    }
                }
                assert(keys@.len() > 0) by {
                    assert(tv0[n].0.len() >= 1);
                }
                lemma_insert_ok(t, keys@);
            }
            self.add_binding(m, keys, Binding::Builtin(a));
            proof {
                let s = tv0.skip(n);
                assert(s.drop_first() =~= rest);
                assert(s[0] == tv0[n]);
                assert(table_map(s) == table_map(rest).insert(keys@, a));
                assert forall|k: Seq<Input>| #[trigger] self.keymap(m).value_at(k) == table_binding(
                    s,
                    k,
                ) by {
                    if k != keys@ {
                        assert(self.keymap(m).value_at(k) == t.value_at(k));
                    }
                }
                assert forall|k: Seq<Input>| #[trigger] self.keymap(m).has_node(k) <==> (k.len() == 0
                    || exists|j: int| 0 <= j < s.len() && is_proper_prefix(k, #[trigger] s[j].0)) by {
                    if t.has_node(k) && k.len() > 0 {
                        let j = choose|j: int|
                            0 <= j < rest.len() && is_proper_prefix(k, #[trigger] rest[j].0);
                        assert(s[j + 1] == rest[j]);
                    }
                    if is_proper_prefix(k, keys@) {
                        assert(s[0].0 == keys@);
                    }
                    if exists|j: int| 0 <= j < s.len() && is_proper_prefix(k, #[trigger] s[j].0) {
                        let j = choose|j: int| 0 <= j < s.len() && is_proper_prefix(k, #[trigger] s[j].0);
                        if j > 0 {
                            assert(rest[j - 1] == s[j]);
                        }
                    }
                }
            }
        }
        assert(tv0.skip(0) =~= tv0);
    }

    /// The mappings of normal mode.
    fn configure_normal_mode(&mut self)
        requires
            keymap_empty(old(self).keymap(Mode::Normal)),
        ensures
            keymap_holds(final(self).keymap(Mode::Normal), normal_table()),
            forall|m2: Mode|
                m2 != Mode::Normal ==> #[trigger] final(self).keymap(m2) == old(self).keymap(m2),
            final(self).pending() == old(self).pending(),
            final(self).state_view() == old(self).state_view(),
    {
        let mut t: Vec<(Vec<Input>, Action)> = Vec::new();
        bind_key(&mut t, Input::Escape, Action::SetMode(Mode::Normal));
        bind_key(&mut t, Input::Char(ctrl_key('u' as u8) as char), Action::MoveRepeat(CursorDirection::Up));
        bind_key(&mut t, Input::Char(ctrl_key('d' as u8) as char), Action::MoveRepeat(CursorDirection::Down));
        bind_key(&mut t, Input::Char('h'), Action::Move(CursorDirection::Left));
        bind_key(&mut t, Input::Char('j'), Action::Move(CursorDirection::Down));
        bind_key(&mut t, Input::Char('k'), Action::Move(CursorDirection::Up));
        bind_key(&mut t, Input::Char('l'), Action::Move(CursorDirection::Right));
        bind_key(&mut t, Input::Char('i'), Action::SetMode(Mode::Insert));
        bind_key(&mut t, Input::Char('v'), Action::SetMode(Mode::Visual));
        bind_keys(&mut t, Input::Char('g'), Input::Char('g'), Action::SeekFirst);
        bind_key(&mut t, Input::Char('G'), Action::SeekLast);
        bind_key(&mut t, Input::Char('a'), Action::Append);
        bind_key(&mut t, Input::Char('o'), Action::OpenLine);
        bind_key(&mut t, Input::Char('0'), Action::LineStart);
        bind_key(&mut t, Input::Char('$'), Action::LineEnd);
        bind_keys(&mut t, Input::Char('y'), Input::Char('y'), Action::YankLine);
        bind_keys(&mut t, Input::Char('d'), Input::Char('d'), Action::DeleteLine);
        bind_key(&mut t, Input::Char('x'), Action::DeleteUnder);
        bind_key(&mut t, Input::Char('p'), Action::Paste);
        motion_bindings(&mut t, None, MotionUse::Move);
        motion_bindings(&mut t, Some(Input::Char('d')), MotionUse::Delete);
        motion_bindings(&mut t, Some(Input::Char('y')), MotionUse::Yank);
        bind_key(&mut t, Input::Char(':'), Action::SetMode(Mode::Command));
        arrow_bindings(&mut t);
        proof {
            assert(table_view(t@) =~= normal_table());
            lemma_mode_tables_ok(Mode::Normal);
        }
        self.add_table(Mode::Normal, t);
    }

    /// The mappings of insert mode.
    fn configure_insert_mode(&mut self)
        requires
            keymap_empty(old(self).keymap(Mode::Insert)),
        ensures
            keymap_holds(final(self).keymap(Mode::Insert), insert_table()),
            forall|m2: Mode|
                m2 != Mode::Insert ==> #[trigger] final(self).keymap(m2) == old(self).keymap(m2),
            final(self).pending() == old(self).pending(),
            final(self).state_view() == old(self).state_view(),
    {
        let mut t: Vec<(Vec<Input>, Action)> = Vec::new();
        bind_key(&mut t, Input::Escape, Action::SetMode(Mode::Normal));
        arrow_bindings(&mut t);
        bind_key(&mut t, Input::Backspace, Action::DeleteChar);
        bind_key(&mut t, Input::Enter, Action::Newline);
        proof {
            assert(table_view(t@) =~= insert_table());
            lemma_mode_tables_ok(Mode::Insert);
        }
        self.add_table(Mode::Insert, t);
    }

    /// The mappings of command mode.
    fn configure_command_mode(&mut self)
        requires
            keymap_empty(old(self).keymap(Mode::Command)),
        ensures
            keymap_holds(final(self).keymap(Mode::Command), command_table()),
            forall|m2: Mode|
                m2 != Mode::Command ==> #[trigger] final(self).keymap(m2) == old(self).keymap(m2),
            final(self).pending() == old(self).pending(),
            final(self).state_view() == old(self).state_view(),
    {
        let mut t: Vec<(Vec<Input>, Action)> = Vec::new();
        bind_key(&mut t, Input::Escape, Action::SetMode(Mode::Normal));
        bind_key(&mut t, Input::Enter, Action::RunCommand);
        bind_key(&mut t, Input::Backspace, Action::CommandBackspace);
        bind_key(&mut t, Input::Arrow(CursorDirection::Left), Action::Nothing);
        bind_key(&mut t, Input::Arrow(CursorDirection::Right), Action::Nothing);
        proof {
            assert(table_view(t@) =~= command_table());
            lemma_mode_tables_ok(Mode::Command);
        }
        self.add_table(Mode::Command, t);
    }

    /// The mappings of visual mode.
    fn configure_visual_mode(&mut self)
        requires
            keymap_empty(old(self).keymap(Mode::Visual)),
        ensures
            keymap_holds(final(self).keymap(Mode::Visual), visual_table()),
            forall|m2: Mode|
                m2 != Mode::Visual ==> #[trigger] final(self).keymap(m2) == old(self).keymap(m2),
            final(self).pending() == old(self).pending(),
            final(self).state_view() == old(self).state_view(),
    {
        let mut t: Vec<(Vec<Input>, Action)> = Vec::new();
        bind_key(&mut t, Input::Escape, Action::SetMode(Mode::Normal));
        arrow_bindings(&mut t);
        bind_key(&mut t, Input::Backspace, Action::DeleteChar);
        bind_key(&mut t, Input::Enter, Action::Newline);
        bind_key(&mut t, Input::Char('h'), Action::Move(CursorDirection::Left));
        bind_key(&mut t, Input::Char('j'), Action::Move(CursorDirection::Down));
        bind_key(&mut t, Input::Char('k'), Action::Move(CursorDirection::Up));
        bind_key(&mut t, Input::Char('l'), Action::Move(CursorDirection::Right));
        proof {
            assert(table_view(t@) =~= visual_table());
            lemma_mode_tables_ok(Mode::Visual);
        }
        self.add_table(Mode::Visual, t);
    }

    /// Types `ch` into the buffer, when it is a character.
    pub fn fallback_insert(&mut self, buf: &mut Buffer, ch: Input)
        requires
            ch is Char ==> old(buf)@.insert_char_ok(),
        ensures
            final(buf)@ == (match ch {
                Input::Char(c) => old(buf)@.with_char(c),
                _ => old(buf)@,
            }),
            *final(self) == *old(self),
    {
        match ch {
            Input::Char(c) => buf.insert_char(c),
            _ => {},
        }
    }

    /// Feeds one key. First the buffer's cursor rule is set to the mode's
    /// (past the end of a line in insert mode only). Then the key is added to
    /// the keys typed so far; when these reach a mapping of the current mode
    /// it runs, when they lead on towards mappings nothing more happens, and
    /// when they lead nowhere the mode takes the key itself. The result says
    /// whether the editor should quit.
    pub fn handle_input(&mut self, buf: &mut Buffer, ch: Input) -> (r: ControlFlow<()>)
        requires
            old(self).input_ok(old(buf)@, ch),
        ensures
            old(self).input_spec(old(buf)@, ch, *final(self), final(buf)@, r),
    {
        let mode = self.state.mode.mode();
        buf.set_go_past_end(mode == Mode::Insert);
        queue_push(&mut self.cur_input, ch);
        let found = match mode {
            Mode::Normal => self.normal_keymaps.get(queue_as_slice(&self.cur_input)),
            Mode::Insert => self.insert_keymaps.get(queue_as_slice(&self.cur_input)),
            Mode::Visual => self.visual_keymaps.get(queue_as_slice(&self.cur_input)),
            Mode::Command => self.command_keymaps.get(queue_as_slice(&self.cur_input)),
        };
        match found {
            Some(GetResult::Value(Binding::Builtin(a))) => {
                let a: Action = *a;
                apply_action(a, buf, &mut self.state);
                queue_clear(&mut self.cur_input);
            },
            Some(GetResult::Value(Binding::Custom(f))) => {
                f.call(buf, &mut self.state);
                queue_clear(&mut self.cur_input);
            },
            Some(GetResult::Subtrie(_)) => {},
            None => {
                match mode {
                    Mode::Insert => self.fallback_insert(buf, ch),
                    Mode::Command => self.state.command_push(ch),
                    _ => {},
                }
                queue_clear(&mut self.cur_input);
            },
        }
        if self.state.quit {
            ControlFlow::Break(())
        } else {
            ControlFlow::Continue(())
        }
    }
}

/// Whether moving `n` times in direction `d` can run: checked on a copy of
/// the buffer, one move at a time.
fn can_move_repeat(buf: &Buffer, past_end: bool, d: CursorDirection, n: usize) -> (r: bool)
    ensures
        r == moved_n_ok(BufferView { go_past_end: past_end, ..buf@ }, d, n as nat),
{
    let mut b = buf.duplicate();
    b.set_go_past_end(past_end);
    let mut k: usize = 0;
    while k < n
        invariant
            k <= n,
            moved_n_ok(BufferView { go_past_end: past_end, ..buf@ }, d, n as nat) == moved_n_ok(
                b@,
                d,
                (n - k) as nat,
            ),
        decreases n - k,
    {
        if !b.can_move(d) {
            return false;
        }
        b.move_cursor(d);
        k = k + 1;
    }
    true
}

/// Whether pasting the characters `cs` can run: checked on a copy of the
/// buffer, one character at a time.
fn can_paste_chars(buf: &Buffer, past_end: bool, cs: &[char]) -> (r: bool)
    ensures
        r == paste_ok(BufferView { go_past_end: past_end, ..buf@ }, cs@),
{
    let mut b = buf.duplicate();
    b.set_go_past_end(past_end);
    let n = cs.len();
    let mut i: usize = 0;
    assert(cs@.skip(0) =~= cs@);
    while i < n
        invariant
            n == cs@.len(),
            i <= n,
            paste_ok(BufferView { go_past_end: past_end, ..buf@ }, cs@) == paste_ok(
                b@,
                cs@.skip(i as int),
            ),
        decreases n - i,
    {
        let c = cs[i];
        assert(cs@.skip(i as int)[0] == c);
        assert(cs@.skip(i as int).drop_first() =~= cs@.skip(i + 1));
        if c == '\n' {
            if !b.cursor_on_line() {
                return false;
            }
            b.add_newline();
        } else {
            if !b.can_insert_char() {
                return false;
            }
            b.insert_char(c);
        }
        i = i + 1;
    }
    true
}

/// Whether the lines from `start` to `end` can be read.
fn range_accepts(buf: &Buffer, start: Location, end: Location) -> (r: bool)
    ensures
        r == range_next_ok(buf@.rows, start, end),
{
    let l = start.line();
    if l == end.line() && l < buf.num_lines() {
        let len = buf.row_len(l);
        !(start.col() < len && end.col() < start.col())
    } else {
        true
    }
}

/// Whether a word motion can run.
fn motion_accepts(k: MotionKind, buf: &Buffer) -> (r: bool)
    ensures
        r == motion_ok(k, buf@),
{
    match k {
        MotionKind::Word | MotionKind::BigWord => {
            let (line, col) = buf.position().destruct();
            proof {
                Location::lemma_mk(buf@.cur_line, buf@.cur_col);
            }
            col <= usize::MAX - buf.row_len(line)
        },
        _ => true,
    }
}

/// Whether a built-in mapping can run on the buffer with the cursor rule
/// `past_end`.
fn action_accepts(a: Action, buf: &Buffer, past_end: bool, state: &VimState) -> (r: bool)
    ensures
        r == action_ok(a, BufferView { go_past_end: past_end, ..buf@ }, state.view()),
{
    let (line, col) = buf.position().destruct();
    proof {
        Location::lemma_mk(buf@.cur_line, buf@.cur_col);
    }
    match a {
        Action::Move(d) => buf.can_move(d),
        Action::MoveRepeat(d) => can_move_repeat(buf, past_end, d, 12),
        Action::Append => col < usize::MAX,
        Action::OpenLine => line < usize::MAX,
        Action::DeleteLine => line < buf.num_lines(),
        Action::DeleteUnder => col < usize::MAX && line < buf.num_lines(),
        Action::Paste => {
            let reg = state.registers.get_register('"');
            if reg.is_linewise() {
                line < usize::MAX
            } else {
                let cs = reg.chars();
                can_paste_chars(buf, past_end, cs.as_slice())
            }
        },
        Action::MotionMove(k) => motion_accepts(k, buf),
        Action::DeleteMotion(k) | Action::YankMotion(k) => {
            if !motion_accepts(k, buf) {
                return false;
            }
            let start = buf.position();
            match motion_next(k, buf) {
                Some(e) => {
                    let (st, en) = sort_location(start, e);
                    let ok = range_accepts(buf, st, en);
                    match a {
                        Action::DeleteMotion(_) => {
                            let n = buf.num_lines();
                            ok && st.is_before(&en) && st.line() < n && en.line() < n
                        },
                        _ => ok,
                    }
                },
                None => true,
            }
        },
        Action::DeleteChar => buf.can_delete_char(),
        Action::Newline => buf.cursor_on_line(),
        Action::RunCommand | Action::CommandBackspace => match &state.mode {
            ModeState::Command { .. } => true,
            _ => false,
        },
        _ => true,
    }
}

impl Vim {
    /// Feeds one key where it can be handled: runs `handle_input` and gives
    /// its result when `input_ok` holds, and otherwise leaves everything as
    /// it was and gives nothing.
    pub fn try_handle_input(&mut self, buf: &mut Buffer, ch: Input) -> (r: Option<ControlFlow<()>>)
        ensures
            r is Some <==> old(self).input_ok(old(buf)@, ch),
            r matches Some(f) ==> old(self).input_spec(old(buf)@, ch, *final(self), final(buf)@, f),
            r is None ==> *final(self) == *old(self) && final(buf)@ == old(buf)@,
    {
        if self.accepts(buf, ch) {
            Some(self.handle_input(buf, ch))
        } else {
            None
        }
    }

    /// Whether `handle_input(buf, ch)` can run: checks `input_ok`.
    pub fn accepts(&self, buf: &Buffer, ch: Input) -> (r: bool)
        ensures
            r == self.input_ok(buf@, ch),
    {
        let mode = self.state.mode.mode();
        let typed = queue_as_slice(&self.cur_input);
        let mut keys: Vec<Input> = Vec::new();
        let mut i: usize = 0;
        while i < typed.len()
            invariant
                i <= typed@.len(),
                keys@ == typed@.take(i as int),
            decreases typed@.len() - i,
        {
            keys.push(typed[i]);
            i = i + 1;
            assert(keys@ =~= typed@.take(i as int));
        }
        assert(typed@.take(i as int) =~= typed@);
        keys.push(ch);
        let found = match mode {
            Mode::Normal => self.normal_keymaps.get(keys.as_slice()),
            Mode::Insert => self.insert_keymaps.get(keys.as_slice()),
            Mode::Visual => self.visual_keymaps.get(keys.as_slice()),
            Mode::Command => self.command_keymaps.get(keys.as_slice()),
        };
        match found {
            Some(GetResult::Value(Binding::Builtin(a))) => action_accepts(
                *a,
                buf,
                mode == Mode::Insert,
                &self.state,
            ),
            None => match mode {
                Mode::Insert => match ch {
                    Input::Char(_) => buf.can_insert_char(),
                    _ => true,
                },
                Mode::Command => match ch {
                    Input::Char(_) => true,
                    _ => false,
                },
                _ => true,
            },
            _ => true,
        }
    }
}

/// In each mode of an editor with the built-in mappings, Escape on its
/// own reaches the mapping that returns to normal mode.
pub proof fn law_escape_returns_to_normal(v: Vim, m: Mode, b: BufferView)
    requires
        forall|m2: Mode| keymap_holds(#[trigger] v.keymap(m2), mode_table(m2)),
    ensures
        v.keymap(m).root_node().walk(seq![Input::Escape]) == Walk::<Input, Binding>::Leaf(
            Binding::Builtin(Action::SetMode(Mode::Normal)),
        ),
        action_spec(Action::SetMode(Mode::Normal), b, v.state_view()).1.mode == ModeView::Normal,
{
    lemma_mode_tables_ok(m);
    lemma_table_map_entry(mode_table(m), 0);
    assert(mode_table(m)[0] == (seq![Input::Escape], Action::SetMode(Mode::Normal)));
    assert(v.keymap(m).value_at(seq![Input::Escape]) == Some(
        Binding::Builtin(Action::SetMode(Mode::Normal)),
    ));
}

/// Deleting over a word motion leaves in the register exactly what yanking
/// over the same motion would.
pub proof fn law_delete_registers_what_yank_would(k: MotionKind, b: BufferView, s: VimView)
    ensures
        action_spec(Action::DeleteMotion(k), b, s).1 == action_spec(Action::YankMotion(k), b, s).1,
{
}

/// A line without a line break is one line.
proof fn lemma_lines_of_one_line(row: Seq<char>)
    requires
        !row.contains('\n'),
    ensures
        lines_acc(row) == (Seq::<Seq<char>>::empty(), row),
    decreases row.len(),
{
    if row.len() > 0 {
        let p = row.drop_last();
        assert(!p.contains('\n')) by {
            if p.contains('\n') {
                let i = choose|i: int| 0 <= i < p.len() && p[i] == '\n';
                assert(row[i] == '\n');
            }
        }
        lemma_lines_of_one_line(p);
        assert(row[row.len() - 1] != '\n');
        assert(p.push(row.last()) == row);
    }
}

/// Copying a line with `yy` and pasting it with `p` puts a copy of the line
/// right below it, with the cursor at the start of the copy.
pub proof fn law_yank_line_then_paste(b: BufferView, s: VimView)
    requires
        b.rows.len() <= usize::MAX,
        b.cur_line < b.rows.len(),
        b.rows[b.cur_line as int].len() > 0,
        !b.rows[b.cur_line as int].contains('\n'),
    ensures
        ({
            let s1 = action_spec(Action::YankLine, b, s).1;
            let b2 = action_spec(Action::Paste, b, s1).0;
            &&& action_ok(Action::Paste, b, s1)
            &&& b2.rows == b.rows.insert(b.cur_line + 1, b.rows[b.cur_line as int])
            &&& b2.cur_line == b.cur_line + 1
            &&& b2.cur_col == 0
        }),
{
    let row = b.rows[b.cur_line as int];
    lemma_lines_of_one_line(row);
    assert(lines_spec(row) == seq![row]);
    let l = b.cur_line + 1;
    assert(b.rows.take(l) + seq![row] + b.rows.skip(l) =~= b.rows.insert(l, row));
}

/// The command lines that quit, once trimmed: `q`, `q!`, `qa`, `qa!`, and
/// `wq`, `wqa` (which write first).
pub open spec fn quits(t: Seq<char>) -> bool {
    ||| t.len() == 1 && t[0] == 'q'
    ||| t.len() == 2 && t[0] == 'q' && (t[1] == '!' || t[1] == 'a')
    ||| t.len() == 3 && t[0] == 'q' && t[1] == 'a' && t[2] == '!'
    ||| t.len() == 2 && t[0] == 'w' && t[1] == 'q'
    ||| t.len() == 3 && t[0] == 'w' && t[1] == 'q' && t[2] == 'a'
}

/// Running a command line sets the editor to quit exactly when the line,
/// trimmed, is one of the quitting commands (or it was quitting already),
/// and always leaves command mode for normal mode.
pub proof fn law_quit_commands(b: BufferView, s: VimView, cmdline: Seq<char>)
    ensures
        run_command(b, s, cmdline).1.quit == (s.quit || quits(trim_spec(cmdline))),
        run_command(b, s, cmdline).1.mode == ModeView::Normal,
{
    let t = trim_spec(cmdline);
    if t.len() == 1 && t[0] == 'q' {
        assert(t =~= seq!['q']);
    } else if t.len() == 2 && t[0] == 'q' && t[1] == '!' {
        assert(t =~= seq!['q', '!']);
    } else if t.len() == 2 && t[0] == 'q' && t[1] == 'a' {
        assert(t =~= seq!['q', 'a']);
    } else if t.len() == 3 && t[0] == 'q' && t[1] == 'a' && t[2] == '!' {
        assert(t =~= seq!['q', 'a', '!']);
    } else if t.len() == 2 && t[0] == 'w' && t[1] == 'q' {
        assert(t =~= seq!['w', 'q']);
    } else if t.len() == 3 && t[0] == 'w' && t[1] == 'q' && t[2] == 'a' {
        assert(t =~= seq!['w', 'q', 'a']);
    } else {
        assert(t != seq!['q'] && t != seq!['q', '!'] && t != seq!['q', 'a'] && t != seq![
            'q',
            'a',
            '!',
        ] && t != seq!['w', 'q'] && t != seq!['w', 'q', 'a']);
    }
    match command_of(t) {
        Command::WriteQuit => {},
        Command::Write => {},
        _ => {},
    }
}

/// How many line breaks `cs` holds.
pub open spec fn newlines(cs: Seq<char>) -> nat
    decreases cs.len(),
{
    if cs.len() == 0 {
        0
    } else {
        (if cs[0] == '\n' {
            1nat
        } else {
            0nat
        }) + newlines(cs.drop_first())
    }
}

/// Pasting characters adds one line for each line break among them (an
/// empty buffer counting as one empty line), and a paste of something
/// leaves lines in the buffer.
pub proof fn law_paste_adds_a_line_per_newline(b: BufferView, cs: Seq<char>)
    requires
        paste_ok(b, cs),
    ensures
        paste_chars(b, cs).rows_or_empty_line().len() == b.rows_or_empty_line().len() + newlines(cs),
        cs.len() > 0 ==> paste_chars(b, cs).rows.len() == b.rows_or_empty_line().len() + newlines(cs),
    decreases cs.len(),
{
    if cs.len() > 0 {
        let c = cs[0];
        let b1 = paste_step(b, c);
        let rows0 = b.rows_or_empty_line();
        assert(b1.rows.len() == rows0.len() + (if c == '\n' {
            1int
        } else {
            0int
        }));
        assert(b1.rows_or_empty_line() == b1.rows);
        law_paste_adds_a_line_per_newline(b1, cs.drop_first());
        if cs.drop_first().len() == 0 {
            assert(paste_chars(b1, cs.drop_first()) == b1);
        }
    }
}

} // verus!
