use std::cell::Cell;
use std::ops::ControlFlow;
use std::rc::Rc;

use vimlite::buffer::Buffer;
use vimlite::input::{ctrl_key, CursorDirection, Input};
use vimlite::location::Location;
use vimlite::vim::{Effect, Mode, RegisterEntry, Vim};

trait NoBreak {
    fn no_break(self);
    fn breaks(self);
}

impl NoBreak for ControlFlow<()> {
    fn no_break(self) {
        assert!(!self.is_break());
    }
    fn breaks(self) {
        assert!(self.is_break());
    }
}

const PATH: &str = "buffer.txt";

fn buffer(s: &str) -> Buffer {
    Buffer::read(PATH.to_owned(), s)
}

fn press(vim: &mut Vim, buf: &mut Buffer, ch: Input) -> ControlFlow<()> {
    assert!(vim.accepts(buf, ch), "{ch:?} cannot be handled here");
    vim.handle_input(buf, ch)
}

fn feedkeys(vim: &mut Vim, buf: &mut Buffer, keys: &str) -> ControlFlow<()> {
    for ch in keys.chars() {
        let ch = match ch {
            '\n' => Input::Enter,
            _ => {
                assert!(ch.is_ascii());
                assert!(!ch.is_ascii_control());
                Input::Char(ch)
            }
        };
        press(vim, buf, ch)?;
    }
    ControlFlow::Continue(())
}

#[test]
fn handle_key() {
    let mut v = Vim::bare();
    let mut buf = Buffer::new();
    let x = Rc::new(Cell::new(0));
    let y = Rc::clone(&x);
    v.add_keymap(
        Mode::Normal,
        vec![Input::Char('a'), Input::Char('b')],
        move |_| x.set(1),
    );

    assert_eq!(y.get(), 0);

    let _ = v.handle_input(&mut buf, Input::Char('a'));
    assert_eq!(y.get(), 0);

    let _ = v.handle_input(&mut buf, Input::Char('b'));

    assert_eq!(y.get(), 1);
}

#[test]
fn handle_key_unknown_sequence() {
    let mut v = Vim::bare();
    let mut buf = Buffer::new();
    let x = Rc::new(Cell::new(0));
    let y = Rc::clone(&x);
    let z = Rc::clone(&x);
    v.add_keymap(
        Mode::Normal,
        vec![Input::Char('a'), Input::Char('b')],
        move |_| y.set(1),
    );
    v.add_keymap(Mode::Normal, vec![Input::Char('c')], move |_| z.set(2));

    assert_eq!(x.get(), 0);

    let _ = v.handle_input(&mut buf, Input::Char('a'));
    assert_eq!(x.get(), 0);

    let _ = v.handle_input(&mut buf, Input::Char('c'));
    assert_eq!(x.get(), 0);

    let _ = v.handle_input(&mut buf, Input::Char('c'));

    assert_eq!(x.get(), 2);
}

#[test]
fn mode_str() {
    assert_eq!(Mode::Normal.str(), "NORMAL");
    assert_eq!(Mode::Insert.str(), "INSERT");
    assert_eq!(Mode::Visual.str(), "VISUAL");
}

#[test]
fn insert_works() {
    let mut vim = Vim::new();
    let mut buf = buffer("hello world");
    press(&mut vim, &mut buf, Input::Char('l')).no_break();
    assert_eq!(buf.position(), (0, 1).into());
    press(&mut vim, &mut buf, Input::Char('i')).no_break();
    assert_eq!(vim.mode(), Mode::Insert);
    press(&mut vim, &mut buf, Input::Char(' ')).no_break();
    assert_eq!(vim.mode(), Mode::Insert);
    assert_eq!(buf.save(), "h ello world\n");
}

#[test]
fn a_works() {
    let mut vim = Vim::new();
    let mut buf = buffer("hello world");
    feedkeys(&mut vim, &mut buf, "lllla,").no_break();
    assert_eq!(buf.save(), "hello, world\n");
    assert_eq!(vim.mode(), Mode::Insert);
    press(&mut vim, &mut buf, Input::Escape).no_break();
    assert_eq!(vim.mode(), Mode::Normal);

    let mut vim = Vim::new();
    let mut buf = buffer("hello, world");
    feedkeys(&mut vim, &mut buf, "$a!").no_break();
    assert_eq!(vim.mode(), Mode::Insert);
    assert_eq!(buf.save(), "hello, world!\n");
}

#[test]
fn motion_works() {
    let mut vim = Vim::new();
    let mut buf = buffer("hello\nworld\nfoo\nbar");
    feedkeys(&mut vim, &mut buf, "llj").no_break();
    assert_eq!(buf.position(), Location::new(1, 2));
    feedkeys(&mut vim, &mut buf, "k").no_break();
    assert_eq!(buf.position(), Location::new(0, 2));
    feedkeys(&mut vim, &mut buf, "h").no_break();
    assert_eq!(buf.position(), Location::new(0, 1));
    feedkeys(&mut vim, &mut buf, "lllllll").no_break();
    assert_eq!(buf.position(), Location::new(0, 4));
}

#[test]
fn yank_works() {
    let mut vim = Vim::new();
    let mut buf = buffer("hello\nworld\nfoo\nbar");
    assert_eq!(buf.position(), Location::new(0, 0));
    feedkeys(&mut vim, &mut buf, "yyjp").no_break();
    assert_eq!(buf.save(), "hello\nworld\nhello\nfoo\nbar\n");
    assert_eq!(buf.position(), Location::new(2, 0));
}

#[test]
fn w_works() {
    let mut vim = Vim::new();
    let mut buf = buffer("hello  world");
    feedkeys(&mut vim, &mut buf, "w").no_break();
    assert_eq!(buf.position(), Location::new(0, 7));
    feedkeys(&mut vim, &mut buf, "w").no_break();
    assert_eq!(buf.position(), Location::new(0, 11));
}

#[test]
fn o_works() {
    let mut vim = Vim::new();
    let mut buf = buffer("hello  world");
    feedkeys(&mut vim, &mut buf, "o").no_break();
    assert_eq!(vim.mode(), Mode::Insert);
    assert_eq!(buf.position(), Location::new(1, 0));
    assert_eq!(buf.save(), "hello  world\n\n");

    let mut vim = Vim::new();
    let mut buf = buffer("");
    feedkeys(&mut vim, &mut buf, "o").no_break();
    assert_eq!(buf.position(), Location::new(0, 0));
}

#[test]
fn insert_newline_works() {
    let mut vim = Vim::new();
    let mut buf = buffer("helloworld");
    feedkeys(&mut vim, &mut buf, "llllli\n").no_break();
    assert_eq!(vim.mode(), Mode::Insert);
    assert_eq!(buf.position(), Location::new(1, 0));
    assert_eq!(buf.save(), "hello\nworld\n");
}

#[test]
fn quit_works() {
    let mut vim = Vim::new();
    let mut buf = buffer("helloworld");
    feedkeys(&mut vim, &mut buf, ":q").no_break();
    feedkeys(&mut vim, &mut buf, "\n").breaks();
}

#[test]
fn command_mode() {
    let mut vim = Vim::new();
    let mut buf = buffer("helloworld");
    feedkeys(&mut vim, &mut buf, ":f").no_break();
    assert_eq!(vim.command_str(), Some("f"));
    press(&mut vim, &mut buf, Input::Backspace).no_break();
    assert_eq!(vim.command_str(), Some(""));
    assert_eq!(vim.mode(), Mode::Command);
    press(&mut vim, &mut buf, Input::Backspace).no_break();
    assert_eq!(vim.mode(), Mode::Normal);
}

#[test]
fn write_works() {
    let mut vim = Vim::new();
    let mut buf = buffer("helloworld");
    feedkeys(&mut vim, &mut buf, ":w\n").no_break();
    let effects = vim.take_effects();
    assert_eq!(
        effects,
        vec![Effect::Write {
            path: PATH.to_owned(),
            contents: "helloworld\n".to_owned()
        }]
    );
}

#[test]
fn write_quit_works() {
    let mut vim = Vim::new();
    let mut buf = buffer("helloworld");
    feedkeys(&mut vim, &mut buf, ":wq").no_break();
    feedkeys(&mut vim, &mut buf, "\n").breaks();
    let effects = vim.take_effects();
    assert_eq!(
        effects,
        vec![Effect::Write {
            path: PATH.to_owned(),
            contents: "helloworld\n".to_owned()
        }]
    );
}

#[test]
fn page_up_down() {
    let mut vim = Vim::new();
    let mut buf = buffer("hello\nworld\nfoo");
    let before = buf.position().line();
    press(&mut vim, &mut buf, Input::Char(ctrl_key(b'd') as char)).no_break();
    let after = buf.position().line();
    assert!(before < after);

    press(&mut vim, &mut buf, Input::Char(ctrl_key(b'u') as char)).no_break();
    let last = buf.position().line();
    assert!(after > last);
}

#[test]
fn yank() {
    let mut vim = Vim::new();
    let mut buf = buffer("hello world");
    feedkeys(&mut vim, &mut buf, "yw").no_break();
    assert_eq!(
        vim.state().registers().get_register('"'),
        &RegisterEntry::new("hello ".into())
    );
    assert_eq!(buf.position(), Location::new(0, 0));
}

#[test]
fn delete() {
    let mut vim = Vim::new();
    let mut buf = buffer("hello world");
    feedkeys(&mut vim, &mut buf, "dw").no_break();
    assert_eq!(
        vim.state().registers().get_register('"'),
        &RegisterEntry::new("hello ".into())
    );
    assert_eq!(buf.save(), "world\n");
    assert_eq!(buf.position(), Location::new(0, 0));
}

#[test]
fn delete_back() {
    let mut vim = Vim::new();
    let mut buf = buffer("hello world");
    feedkeys(&mut vim, &mut buf, "lllldb").no_break();
    assert_eq!(
        vim.state().registers().get_register('"'),
        &RegisterEntry::new("hell".into())
    );
    assert_eq!(buf.save(), "o world\n");
    assert_eq!(buf.position(), Location::new(0, 0));
}

#[test]
fn end_of_line() {
    let mut vim = Vim::new();
    let mut buf = buffer("hello world");
    feedkeys(&mut vim, &mut buf, "$").no_break();
    assert_eq!(buf.position(), Location::new(0, 10));
    feedkeys(&mut vim, &mut buf, "0").no_break();
    assert_eq!(buf.position(), Location::new(0, 0));
}

#[test]
fn arrows_move_in_every_mode_but_command() {
    for (mode_key, mode) in [(None, Mode::Normal), (Some('i'), Mode::Insert), (Some('v'), Mode::Visual)] {
        let mut vim = Vim::new();
        let mut buf = buffer("ab\ncd");
        if let Some(k) = mode_key {
            press(&mut vim, &mut buf, Input::Char(k)).no_break();
        }
        assert_eq!(vim.mode(), mode);
        press(&mut vim, &mut buf, Input::Arrow(CursorDirection::Down)).no_break();
        press(&mut vim, &mut buf, Input::Arrow(CursorDirection::Right)).no_break();
        assert_eq!(buf.position(), Location::new(1, 1));
    }
}
