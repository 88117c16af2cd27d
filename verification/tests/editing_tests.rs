use std::ops::ControlFlow;

use vimlite::buffer::Buffer;
use vimlite::input::{CursorDirection, Input};
use vimlite::location::Location;
use vimlite::vim::{Effect, Mode, RegisterEntry, Vim};

fn keys(vim: &mut Vim, buf: &mut Buffer, s: &str) -> ControlFlow<()> {
    for ch in s.chars() {
        let ch = if ch == '\n' { Input::Enter } else { Input::Char(ch) };
        assert!(vim.accepts(buf, ch), "{ch:?} cannot be handled here");
        vim.handle_input(buf, ch)?;
    }
    ControlFlow::Continue(())
}

fn key(vim: &mut Vim, buf: &mut Buffer, ch: Input) -> ControlFlow<()> {
    assert!(vim.accepts(buf, ch), "{ch:?} cannot be handled here");
    vim.handle_input(buf, ch)
}

#[test]
fn escape_returns_to_normal_from_every_mode() {
    for enter in ["i", "v", ":"] {
        let mut vim = Vim::new();
        let mut buf = Buffer::read("f".into(), "text");
        let _ = keys(&mut vim, &mut buf, enter);
        assert_ne!(vim.mode(), Mode::Normal);
        let _ = key(&mut vim, &mut buf, Input::Escape);
        assert_eq!(vim.mode(), Mode::Normal);
    }
}

#[test]
fn delete_line_and_paste_it_back() {
    let mut vim = Vim::new();
    let mut buf = Buffer::read("f".into(), "one\ntwo\nthree");
    let _ = keys(&mut vim, &mut buf, "jdd");
    assert_eq!(buf.save(), "one\nthree\n");
    let reg = vim.state().registers().get_register('"');
    assert_eq!(reg.value(), "two");
    assert!(reg.is_linewise());
    assert_eq!(reg.chars(), vec!['t', 'w', 'o']);
    let _ = keys(&mut vim, &mut buf, "p");
    assert_eq!(buf.save(), "one\nthree\ntwo\n");
    assert_eq!(buf.position(), Location::new(2, 0));
}

#[test]
fn yank_and_delete_take_the_same_text() {
    for motion in ["w", "W", "b", "B"] {
        let text = "foo.bar baz qux";
        let mut vim = Vim::new();
        let mut buf = Buffer::read("f".into(), text);
        let _ = keys(&mut vim, &mut buf, "llllllll");
        let _ = keys(&mut vim, &mut buf, &format!("y{motion}"));
        let yanked = vim.state().registers().get_register('"').value().to_owned();
        let mut vim2 = Vim::new();
        let mut buf2 = Buffer::read("f".into(), text);
        let _ = keys(&mut vim2, &mut buf2, "llllllll");
        let _ = keys(&mut vim2, &mut buf2, &format!("d{motion}"));
        let deleted = vim2.state().registers().get_register('"').value().to_owned();
        assert_eq!(yanked, deleted, "motion {motion}");
    }
}

#[test]
fn big_word_motions_skip_punctuation() {
    let mut vim = Vim::new();
    let mut buf = Buffer::read("f".into(), "foo.bar baz");
    let _ = keys(&mut vim, &mut buf, "w");
    assert_eq!(buf.position(), Location::new(0, 4));
    let _ = keys(&mut vim, &mut buf, "0W");
    assert_eq!(buf.position(), Location::new(0, 8));
    let _ = keys(&mut vim, &mut buf, "B");
    assert_eq!(buf.position(), Location::new(0, 0));
    let _ = keys(&mut vim, &mut buf, "$b");
    assert_eq!(buf.position(), Location::new(0, 8));
}

#[test]
fn x_deletes_under_the_cursor() {
    let mut vim = Vim::new();
    let mut buf = Buffer::read("f".into(), "abc");
    let _ = keys(&mut vim, &mut buf, "lx");
    assert_eq!(buf.save(), "ac\n");
}

#[test]
fn go_to_first_and_last_line() {
    let mut vim = Vim::new();
    let mut buf = Buffer::read("f".into(), "a\nb\nc");
    let _ = keys(&mut vim, &mut buf, "G");
    assert_eq!(buf.position().line(), 3);
    let _ = keys(&mut vim, &mut buf, "gg");
    assert_eq!(buf.position().line(), 0);
    let _ = keys(&mut vim, &mut buf, ":2\n");
    assert_eq!(buf.position().line(), 2);
    assert_eq!(vim.mode(), Mode::Normal);
}

#[test]
fn file_command_renames_the_buffer() {
    let mut vim = Vim::new();
    let mut buf = Buffer::new();
    let _ = keys(&mut vim, &mut buf, ":f new.txt \n");
    assert_eq!(buf.name(), "new.txt");
    assert_eq!(buf.path(), Some("new.txt"));
}

#[test]
fn shell_command_is_left_for_the_program() {
    let mut vim = Vim::new();
    let mut buf = Buffer::new();
    let _ = keys(&mut vim, &mut buf, ":!ls -l\n");
    assert_eq!(
        vim.take_effects(),
        vec![Effect::Shell {
            command: "ls -l".to_owned()
        }]
    );
    assert!(vim.take_effects().is_empty());
}

#[test]
fn write_without_a_path_does_nothing() {
    let mut vim = Vim::new();
    let mut buf = Buffer::new();
    assert!(keys(&mut vim, &mut buf, ":w\n").is_continue());
    assert!(vim.take_effects().is_empty());
}

#[test]
fn unknown_commands_are_ignored() {
    let mut vim = Vim::new();
    let mut buf = Buffer::read("f".into(), "x");
    assert!(keys(&mut vim, &mut buf, ":nope\n").is_continue());
    assert_eq!(vim.mode(), Mode::Normal);
    assert!(vim.take_effects().is_empty());
    assert!(keys(&mut vim, &mut buf, ":qa!\n").is_break());
}

#[test]
fn pending_keys_wait_for_the_rest_of_a_mapping() {
    let mut vim = Vim::new();
    let mut buf = Buffer::read("f".into(), "a\nb\nc");
    let _ = keys(&mut vim, &mut buf, "jj");
    let _ = keys(&mut vim, &mut buf, "g");
    assert_eq!(buf.position().line(), 2);
    let _ = keys(&mut vim, &mut buf, "g");
    assert_eq!(buf.position().line(), 0);
}

#[test]
fn commands_cannot_take_arrows_they_do_not_map() {
    let mut vim = Vim::new();
    let mut buf = Buffer::read("f".into(), "x");
    let _ = keys(&mut vim, &mut buf, ":");
    assert!(vim.accepts(&buf, Input::Arrow(CursorDirection::Left)));
    assert!(!vim.accepts(&buf, Input::Arrow(CursorDirection::Up)));
    assert!(!vim.accepts(&buf, Input::PageUp));
}

#[test]
fn insert_past_the_last_line_is_refused() {
    let mut vim = Vim::new();
    let mut buf = Buffer::read("f".into(), "a\nb");
    let _ = keys(&mut vim, &mut buf, "Gi");
    assert_eq!(vim.mode(), Mode::Insert);
    assert!(!vim.accepts(&buf, Input::Char('z')));
}

#[test]
fn paste_characters_in_the_line() {
    let mut vim = Vim::new();
    let mut buf = Buffer::read("f".into(), "ab cd");
    let _ = keys(&mut vim, &mut buf, "yw$p");
    assert_eq!(buf.save(), "ab cab d\n");
    assert_eq!(
        vim.state().registers().get_register('"'),
        &RegisterEntry::new("ab ".into())
    );
}

#[test]
fn fallback_insert_types_characters_only() {
    let mut vim = Vim::bare();
    let mut buf = Buffer::read("f".into(), "b");
    vim.fallback_insert(&mut buf, Input::Char('a'));
    vim.fallback_insert(&mut buf, Input::PageDown);
    assert_eq!(buf.save(), "ab\n");
}

#[test]
fn a_bare_editor_maps_nothing() {
    let mut vim = Vim::bare();
    let mut buf = Buffer::read("f".into(), "abc");
    assert!(vim.can_add_keymap(Mode::Normal, &[Input::Char('l')]));
    assert!(!vim.can_add_keymap(Mode::Normal, &[]));
    let _ = vim.handle_input(&mut buf, Input::Char('l'));
    assert_eq!(buf.position(), Location::new(0, 0));
    assert_eq!(vim.command_str(), None);
}

#[test]
fn try_handle_input_refuses_what_cannot_run() {
    let mut vim = Vim::new();
    let mut buf = Buffer::read("f".into(), "a\nb");
    assert_eq!(vim.try_handle_input(&mut buf, Input::Char('G')), Some(ControlFlow::Continue(())));
    assert_eq!(vim.try_handle_input(&mut buf, Input::Char('i')), Some(ControlFlow::Continue(())));
    assert_eq!(vim.try_handle_input(&mut buf, Input::Char('z')), None);
    assert_eq!(buf.save(), "a\nb\n");
    assert_eq!(vim.mode(), Mode::Insert);
}

#[test]
fn whitespace_matches_std() {
    for u in 0..=0x10ffffu32 {
        if let Some(c) = char::from_u32(u) {
            assert_eq!(vimlite::text::char_is_whitespace(c), c.is_whitespace(), "{u:#x}");
        }
    }
}
