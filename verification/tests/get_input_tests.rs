use std::collections::VecDeque;

use vimlite::get_input::{GetChar, GetCharSource};
use vimlite::input::{CursorDirection, Input as I};

use I::Char as C;

enum Event {
    Char(u8),
    Pause,
}

struct MockInput {
    events: VecDeque<Event>,
}

impl MockInput {
    fn new() -> Self {
        Self {
            events: VecDeque::new(),
        }
    }
    fn chars(mut self, s: &str) -> Self {
        for b in s.bytes() {
            self.events.push_back(Event::Char(b));
        }
        self
    }
    fn char(mut self, c: u8) -> Self {
        self.events.push_back(Event::Char(c));
        self
    }
    fn pause(mut self) -> Self {
        self.events.push_back(Event::Pause);
        self
    }
}

impl GetCharSource for MockInput {
    fn get_char(&mut self) -> Option<u8> {
        match self.events.pop_front() {
            None | Some(Event::Pause) => None,
            Some(Event::Char(ch)) => Some(ch),
        }
    }
}

fn poll(getch: &mut GetChar<MockInput>, n: usize) -> Vec<I> {
    let mut ret = vec![];
    for _ in 0..n {
        assert!(getch.is_consistent());
        if let Some(ch) = getch.getch() {
            ret.push(ch);
        }
    }
    ret
}

#[test]
fn normal_flow() {
    let i = MockInput::new()
        .chars("hello")
        .pause()
        .char(b' ')
        .chars("world");
    let mut gc = GetChar::new(i);

    let x = poll(&mut gc, 20);
    assert_eq!(
        x,
        vec![
            I::Char('h'),
            I::Char('e'),
            I::Char('l'),
            I::Char('l'),
            I::Char('o'),
            I::Char(' '),
            I::Char('w'),
            I::Char('o'),
            I::Char('r'),
            I::Char('l'),
            I::Char('d'),
        ]
    );
}

#[test]
fn control_sequence() {
    let i = MockInput::new().chars("hello\x1b[D");
    let mut gc = GetChar::new(i);

    let x = poll(&mut gc, 20);
    assert_eq!(
        x,
        vec![
            I::Char('h'),
            I::Char('e'),
            I::Char('l'),
            I::Char('l'),
            I::Char('o'),
            I::Arrow(CursorDirection::Left)
        ]
    );
}

#[test]
fn unrecognized_control_sequence() {
    let i = MockInput::new().chars("\x1b[,").pause();
    let mut gc = GetChar::new(i);

    let x = poll(&mut gc, 20);
    assert_eq!(x, vec![I::Char('\x1b'), I::Char('['), I::Char(',')]);
}

#[test]
fn long_unrecognized() {
    let i = MockInput::new().chars("\x1b[,1234567890").pause();
    let mut gc = GetChar::new(i);

    let x = poll(&mut gc, 20);
    assert_eq!(
        x,
        vec![
            I::Char('\x1b'),
            I::Char('['),
            I::Char(','),
            I::Char('1'),
            I::Char('2'),
            I::Char('3'),
            I::Char('4'),
            I::Char('5'),
            I::Char('6'),
            I::Char('7'),
            I::Char('8'),
            I::Char('9'),
            I::Char('0'),
        ]
    );
}

#[test]
fn backspace() {
    let i = MockInput::new().chars("h\x7f");
    let mut gc = GetChar::new(i);

    let x = poll(&mut gc, 20);
    assert_eq!(x, vec![I::Char('h'), I::Backspace]);
}

#[test]
fn newline() {
    let i = MockInput::new().chars("h\n");
    let mut gc = GetChar::new(i);

    let x = poll(&mut gc, 20);
    assert_eq!(x, vec![I::Char('h'), I::Enter]);
}

#[test]
fn escape() {
    let i = MockInput::new().chars("\x1b");
    let mut gc = GetChar::new(i);

    let x = poll(&mut gc, 20);
    assert_eq!(x, vec![I::Escape]);
}

#[test]
fn arrow_keys() {
    let i = MockInput::new().chars("\x1b[A\x1b[C\x1b[B\x1b[D");
    let mut gc = GetChar::new(i);

    let x = poll(&mut gc, 20);
    assert_eq!(
        x,
        vec![
            I::Arrow(CursorDirection::Up),
            I::Arrow(CursorDirection::Right),
            I::Arrow(CursorDirection::Down),
            I::Arrow(CursorDirection::Left),
        ]
    );
}

#[test]
fn page_up() {
    let i = MockInput::new().chars("\x1b[5~\x1b[6~");
    let mut gc = GetChar::new(i);

    let x = poll(&mut gc, 20);
    assert_eq!(x, vec![I::PageUp, I::PageDown]);
}

#[test]
fn get_utf8() {
    let i = MockInput::new().chars("äaöoüu");
    let mut gc = GetChar::new(i);

    let x = poll(&mut gc, 20);
    assert_eq!(x, [C('ä'), C('a'), C('ö'), C('o'), C('ü'), C('u'),]);
}

#[test]
fn get_utf8_with_pause() {
    let c = "ü".as_bytes();
    let i = MockInput::new().char(c[0]).pause().char(c[1]);
    let mut gc = GetChar::new(i);

    let x = poll(&mut gc, 20);
    assert_eq!(x, [C('ü')]);
}

#[test]
fn three_byte_utf8() {
    let i = MockInput::new().chars("hi桁");
    let mut gc = GetChar::new(i);

    let x = poll(&mut gc, 20);
    assert_eq!(x, [C('h'), C('i'), C('桁')]);
}

#[test]
fn feed_decodes_without_a_source() {
    let mut gc = GetChar::new(MockInput::new());
    assert_eq!(gc.feed(Some(b'x')), Some(C('x')));
    assert_eq!(gc.feed(Some(0x1b)), None);
    assert_eq!(gc.feed(None), Some(I::Escape));
    assert_eq!(gc.feed(Some(13)), Some(I::Enter));
}

#[test]
fn invalid_utf8_is_dropped() {
    // a continuation byte with no leading byte is not a character
    let i = MockInput::new().char(0x80).chars("a");
    let mut gc = GetChar::new(i);
    let x = poll(&mut gc, 5);
    assert_eq!(x, [C('a')]);
}
