use vimlite::buffer::Buffer;
use vimlite::input::CursorDirection as C;
use vimlite::location::Location;

fn print_cursor(buf: &mut Buffer, rows: u16, cols: u16) {
    let (cy, cx) = buf.cursor(rows, cols);
    if let Some(row) = buf.get_row_render(cy.into(), cols.into()) {
        let idx: usize = cx.into();
        let idx = row
            .char_indices()
            .nth(idx)
            .map(|x| x.0)
            .unwrap_or(row.len());
        let (before, after) = row.split_at(idx);
        println!("{before}│{after}");
    }
}

type Position = (usize, usize);
type Cursor = (u16, u16);

fn enact(buf: &mut Buffer, rows: u16, cols: u16, actions: &[(C, Position, Cursor)]) {
    for (i, &(action, pos, cursor)) in actions.iter().enumerate() {
        assert!(buf.can_move(action));
        buf.move_cursor(action);
        assert!(buf.can_place_cursor(rows, cols));
        print_cursor(buf, rows, cols);
        assert_eq!(buf.position(), pos.into(), "position: #{i} {action:?}");
        assert_eq!(buf.cursor(rows, cols), cursor, "cursor: #{i} {action:?}");
    }
}

fn new_buf(s: &str) -> Buffer {
    let name = "foo.vpr".to_owned();
    Buffer::read(name, textwrap::dedent(s).trim())
}

#[test]
fn buffer_read() {
    let name = "foo.vpr".to_owned();
    let text = "hello".repeat(200);
    let buf = Buffer::read(name.clone(), &text);
    assert_eq!(buf.path(), Some(name.as_str()));
    assert!(!buf.is_dirty());
    assert_eq!(buf.name(), name);
    assert_eq!(buf.num_lines(), 1);
    assert_eq!(buf.get_row(0), Some(text.as_str()));
    assert_eq!(buf.row_offset(), 0);
    assert_eq!(buf.col_offset(), 0);
    assert_eq!(buf.position(), Location::new(0, 0));
}

#[test]
fn move_cursor() {
    let rows = 24;
    let cols = 80;
    let mut buf = new_buf(
        r#"
             foo bar
             baz
             blah
             "#,
    );

    enact(
        &mut buf,
        rows,
        cols,
        &[
            (C::Left, (0, 0), (0, 0)),
            (C::Right, (0, 1), (0, 1)),
            (C::Left, (0, 0), (0, 0)),
            (C::Down, (1, 0), (1, 0)),
            (C::Right, (1, 1), (1, 1)),
            (C::Right, (1, 2), (1, 2)),
            (C::Right, (1, 3), (1, 3)),
            (C::Right, (1, 3), (1, 3)),
        ],
    );
}

#[test]
fn move_cursor_scroll() {
    let rows = 3;
    let cols = 80;
    let mut buf = new_buf(
        r#"
                line 1
                line 2
                line 3
                line 4
                line 5
                "#,
    );

    enact(
        &mut buf,
        rows,
        cols,
        &[
            (C::Down, (1, 0), (1, 0)),
            (C::Down, (2, 0), (2, 0)),
            (C::Down, (3, 0), (2, 0)),
            (C::Down, (4, 0), (2, 0)),
            (C::Down, (4, 0), (2, 0)),
            (C::Up, (3, 0), (1, 0)),
            (C::Up, (2, 0), (0, 0)),
            (C::Up, (1, 0), (0, 0)),
            (C::Up, (0, 0), (0, 0)),
        ],
    );
}

#[test]
fn move_cursor_end_of_line() {
    let rows = 3;
    let cols = 80;
    let mut buf = new_buf(
        r#"
            long line 1
            line 2
            "#,
    );

    for _ in 0..11 {
        buf.move_cursor(C::Right);
    }
    assert_eq!(buf.position(), (0, 11).into());
    assert_eq!(buf.cursor(rows, cols), (0, 11));

    enact(&mut buf, rows, cols, &[(C::Down, (1, 6), (1, 6))]);
}

#[test]
fn move_cursor_scroll_end_of_line() {
    let rows = 3;
    let cols = 7;
    let mut buf = new_buf(
        r#"
            long line 1
            line 2
            "#,
    );

    for _ in 0..11 {
        buf.move_cursor(C::Right);
    }
    assert_eq!(buf.position(), (0, 11).into());
    assert_eq!(buf.cursor(rows, cols), (0, 7));

    enact(&mut buf, rows, cols, &[(C::Down, (1, 6), (1, 6))]);
}

#[test]
fn buffer_to_string() {
    let buf = new_buf(
        "
            this
            ",
    );
    assert_eq!(buf.save(), "this\n");
}

#[test]
fn insert_char() {
    let mut buf = new_buf("this");
    assert_eq!(buf.position(), (0, 0).into());
    assert!(buf.can_insert_char());
    buf.insert_char('a');
    assert_eq!(buf.save(), "athis\n");
}

#[test]
fn append_char() {
    let rows = 24;
    let cols = 80;
    let mut buf = new_buf("this");
    enact(
        &mut buf,
        rows,
        cols,
        &[
            (C::Right, (0, 1), (0, 1)),
            (C::Right, (0, 2), (0, 2)),
            (C::Right, (0, 3), (0, 3)),
            (C::Right, (0, 4), (0, 4)),
        ],
    );
    buf.insert_char('a');
    assert_eq!(buf.save(), "thisa\n");
}

#[test]
fn append_char_scroll() {
    let rows = 24;
    let cols = 3;
    let mut buf = new_buf("this");
    enact(
        &mut buf,
        rows,
        cols,
        &[
            (C::Right, (0, 1), (0, 1)),
            (C::Right, (0, 2), (0, 2)),
            (C::Right, (0, 3), (0, 2)),
            (C::Right, (0, 4), (0, 3)),
        ],
    );
    buf.insert_char('a');
    assert_eq!(buf.save(), "thisa\n");
    assert_eq!(buf.position(), (0, 5).into());
}

#[test]
fn remove_char_at_start_of_line() {
    let mut buf = new_buf("this");
    assert!(buf.can_delete_char());
    buf.delete_char();
    assert_eq!(buf.save(), "this\n");
    assert_eq!(buf.position(), (0, 0).into());
}

#[test]
fn remove_char() {
    let rows = 24;
    let cols = 80;
    let mut buf = new_buf("this");
    enact(
        &mut buf,
        rows,
        cols,
        &[(C::Right, (0, 1), (0, 1)), (C::Right, (0, 2), (0, 2))],
    );
    buf.delete_char();
    assert_eq!(buf.save(), "tis\n");
    assert_eq!(buf.position(), (0, 1).into());
}

#[test]
fn remove_linebreak() {
    let rows = 24;
    let cols = 80;
    let mut buf = new_buf("foo\nbar");
    enact(&mut buf, rows, cols, &[(C::Down, (1, 0), (1, 0))]);
    buf.delete_char();
    print_cursor(&mut buf, rows, cols);
    assert_eq!(buf.save(), "foobar\n");
    assert_eq!(buf.position(), (0, 3).into());
}

#[test]
fn add_newline() {
    let rows = 24;
    let cols = 80;
    let mut buf = new_buf("this");
    enact(
        &mut buf,
        rows,
        cols,
        &[(C::Right, (0, 1), (0, 1)), (C::Right, (0, 2), (0, 2))],
    );
    assert!(buf.cursor_on_line());
    buf.add_newline();
    assert_eq!(buf.save(), "th\nis\n");
    assert_eq!(buf.position(), (1, 0).into());
}

#[test]
fn insert_tab() {
    let rows = 24;
    let cols = 80;
    let mut buf = new_buf("this");
    buf.insert_char('\t');
    assert_eq!(buf.get_row_render(0, cols.into()), Some("    this"));
    enact(&mut buf, rows, cols, &[(C::Right, (0, 2), (0, 5))]);
    buf.insert_char('\t');
    assert_eq!(buf.save(), "\tt\this\n");
    assert_eq!(buf.get_row_render(0, cols.into()), Some("    t    his"));
}

#[test]
fn edit_empty_file() {
    let mut buf = new_buf("");
    assert!(!buf.is_dirty());
    buf.insert_char('h');
    assert!(buf.is_dirty());
    assert_eq!(buf.save(), "h\n");
}

#[test]
fn delete_in_empty_file() {
    let mut buf = new_buf("");
    assert!(!buf.is_dirty());
    buf.delete_char();
    assert!(!buf.is_dirty());
    buf.scrub();
    assert!(!buf.is_dirty());
    assert_eq!(buf.save(), "");
}

#[test]
fn move_cursor_with_tabs() {
    let rows = 24;
    let cols = 80;
    let mut buf = new_buf(
        "
            int main() {
            \treturn 0;
            }
            ",
    );
    for i in 0..13 {
        buf.move_cursor(C::Right);
        print_cursor(&mut buf, rows, cols);
        assert_eq!(buf.position(), (0, (i + 1).min(12)).into());
    }
    enact(&mut buf, rows, cols, &[(C::Down, (1, 10), (1, 13))]);
}

#[test]
fn render_special() {
    let buf = new_buf("\x1b");
    assert_eq!(buf.get_row_render(0, 80), Some("X1b"));
}

#[test]
fn num_lines() {
    let buf = new_buf("");
    assert_eq!(buf.num_lines(), 0);
    let buf = new_buf("foo");
    assert_eq!(buf.num_lines(), 1);
    let buf = new_buf("foo\nbar");
    assert_eq!(buf.num_lines(), 2);
}

#[test]
fn default() {
    let buf = Buffer::default();
    assert!(!buf.is_dirty());
    assert!(buf.is_empty());
    assert_eq!(buf.position(), (0, 0).into());
    assert_eq!(buf.num_lines(), 0);
    assert!(buf.path().is_none());
}

#[test]
fn name() {
    let buf = Buffer::read("name".to_string(), "");
    assert_eq!(buf.name(), "name");
}

fn get_range_case(text: &str, start: (usize, usize), end: (usize, usize), expected: &[&str]) {
    let buffer = new_buf(text);
    assert_eq!(
        buffer.get_range(start.into(), end.into()).collect_lines(),
        expected.to_vec()
    );
}

fn delete_range_case(text: &str, start: (usize, usize), end: (usize, usize), expected: &str) {
    let mut buffer = new_buf(text);
    buffer.delete_range(start.into(), end.into());
    assert_eq!(buffer.save(), expected);
}

#[test]
fn get_full_range() {
    get_range_case("hello\n\nworld", (0, 0), (2, 5), &["hello", "", "world"]);
}

#[test]
fn get_almost_full_range() {
    get_range_case("hello\n\nworld", (0, 0), (2, 4), &["hello", "", "worl"]);
}

#[test]
fn get_empty_range() {
    get_range_case("hello\n\nworld", (0, 0), (0, 0), &[""]);
}

#[test]
fn get_on_one_line() {
    get_range_case("hello\n\nworld", (0, 1), (0, 3), &["el"]);
}

#[test]
fn get_invalid_range() {
    get_range_case("hello\n\nworld", (0, 1), (0, 100), &["ello"]);
}

#[test]
fn delete_in_single_line() {
    delete_range_case("hello world", (0, 2), (0, 6), "heworld\n");
}

#[test]
fn delete_in_two_lines() {
    delete_range_case("hello\n world", (0, 2), (1, 1), "heworld\n");
}

#[test]
fn delete_range_crash() {
    delete_range_case(".\n\nuse anyhow::anyhow;", (2, 4), (2, 10), ".\n\nuse ::anyhow;\n");
}

#[test]
fn delete_range_takes_every_line_between() {
    let mut b = Buffer::read("f".to_string(), "a\nb\nc");
    b.delete_range(Location::new(0, 0), Location::new(2, 0));
    assert_eq!(b.save(), "c\n");
    assert_eq!(b.num_lines(), 1);

    delete_range_case("one\ntwo\nthree\nfour", (0, 1), (3, 2), "our\n");
}

#[test]
fn range_from_the_end_of_a_line() {
    get_range_case("ab\ncd", (0, 2), (1, 1), &["", "c"]);
    get_range_case("ab\ncd\nef", (0, 1), (2, 1), &["b", "cd", "e"]);
}

#[test]
fn backspace_undoes_typing_and_splitting() {
    let mut b = Buffer::read("f".to_string(), "abc\ndef");
    b.set_position(1, 1);
    b.insert_char('x');
    b.delete_char();
    assert_eq!(b.save(), "abc\ndef\n");
    assert_eq!(b.position(), Location::new(1, 1));
    b.add_newline();
    b.delete_char();
    assert_eq!(b.save(), "abc\ndef\n");
    assert_eq!(b.position(), Location::new(1, 1));
}
