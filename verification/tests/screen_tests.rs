use vimlite::buffer::Buffer;
use vimlite::screen::{can_refresh, draw_rows, draw_status_bar, refresh_screen, StatusMessage, MESSAGE_TICKS};
use vimlite::vim::{Mode, Vim};
use vimlite::input::Input;

#[test]
fn status_message_lasts_for_its_ticks() {
    let mut m = StatusMessage::new();
    assert_eq!(m.msg(), None);
    m.set_message("hello".to_owned());
    for _ in 0..MESSAGE_TICKS - 1 {
        m.tick();
        assert_eq!(m.msg(), Some("hello"));
    }
    m.tick();
    assert_eq!(m.msg(), None);
    m.tick();
    assert_eq!(m.msg(), None);
}

#[test]
fn rows_of_a_buffer() {
    let buf = Buffer::read("f".to_owned(), "ab\n\tc");
    let out = draw_rows(&buf, 3, 10, "vimlite", "0.1.0");
    assert_eq!(
        String::from_utf8(out).unwrap(),
        "ab\x1b[K\r\n    c\x1b[K\r\n~\x1b[K\r\n"
    );
}

#[test]
fn rows_are_cut_to_the_width() {
    let buf = Buffer::read("f".to_owned(), "abcdef");
    let out = draw_rows(&buf, 1, 4, "vimlite", "0.1.0");
    assert_eq!(String::from_utf8(out).unwrap(), "abcd\x1b[K\r\n");
}

#[test]
fn welcome_line_in_an_empty_buffer() {
    let buf = Buffer::new();
    let out = draw_rows(&buf, 3, 10, "vimlite", "0.1.0");
    assert_eq!(
        String::from_utf8(out).unwrap(),
        "~\x1b[K\r\n~    vimlite -- version 0.1.0\x1b[K\r\n~\x1b[K\r\n"
    );
}

#[test]
fn status_bar_pads_to_the_width() {
    let buf = Buffer::read("f.txt".to_owned(), "hello");
    let status = StatusMessage::new();
    let out = draw_status_bar(Mode::Normal, &buf, &status, 20);
    assert_eq!(
        String::from_utf8(out).unwrap(),
        "\x1b[7mNORMAL f.txt 1:1    \x1b[m"
    );
}

#[test]
fn status_bar_shows_changes_and_message() {
    let mut buf = Buffer::read("f".to_owned(), "hello");
    buf.insert_char('x');
    let mut status = StatusMessage::new();
    status.set_message("hi".to_owned());
    let out = draw_status_bar(Mode::Insert, &buf, &status, 5);
    assert_eq!(
        String::from_utf8(out).unwrap(),
        "\x1b[7mINSERT f 1:2 [+] hi\x1b[m"
    );
}

#[test]
fn refresh_places_the_cursor() {
    let vim = Vim::new();
    let mut buf = Buffer::read("f".to_owned(), "ab");
    let status = StatusMessage::new();
    assert!(can_refresh(&vim, &buf, 2, 12));
    let out = refresh_screen(&vim, &mut buf, &status, 2, 12, "v", "1");
    assert_eq!(
        String::from_utf8(out).unwrap(),
        "\x1b[?25l\x1b[Hab\x1b[K\r\n~\x1b[K\r\n\x1b[7mNORMAL f 1:1\x1b[m\x1b[1;1H\x1b[?25h"
    );
}

#[test]
fn refresh_shows_the_command_line() {
    let mut vim = Vim::new();
    let mut buf = Buffer::read("f".to_owned(), "ab");
    let status = StatusMessage::new();
    for ch in [Input::Char(':'), Input::Char('w')] {
        assert!(vim.accepts(&buf, ch));
        let _ = vim.handle_input(&mut buf, ch);
    }
    assert!(can_refresh(&vim, &buf, 1, 14));
    let out = refresh_screen(&vim, &mut buf, &status, 1, 14, "v", "1");
    assert_eq!(
        String::from_utf8(out).unwrap(),
        "\x1b[?25l\x1b[Hab\x1b[K\r\n\x1b[7mCOMMAND f 1:1 \x1b[m\r\n\x1b[2K:w\x1b[?25h"
    );
}
