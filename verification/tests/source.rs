use jolang::source::{SourceBuffer, SourceCursor, SourceReader};

#[test]
fn source_reader_walks_lines() {
    let buf = SourceBuffer::new(String::from("a.jol"), String::from("ab\ncd"));
    let mut r = SourceReader::new(&buf);
    assert_eq!(r.peek_char(), Some('a'));
    let c = r.get_cursor();
    assert_eq!((c.pos, c.line, c.collumn), (0, 1, 1));
    assert_eq!(r.next_char(), Some('b'));
    assert_eq!(r.next_char(), Some('\n'));
    let c = r.get_cursor();
    assert_eq!((c.pos, c.line, c.collumn), (2, 2, 0));
    assert_eq!(r.next_char(), Some('c'));
    let c = r.get_cursor();
    assert_eq!((c.pos, c.line, c.collumn), (3, 2, 1));
    let span = r.read_span(2).unwrap();
    assert_eq!(span.data, "cd");
    assert_eq!(span.size, 2);
    assert_eq!(span.start, c);
    assert_eq!(r.next_char(), Some('d'));
    assert_eq!(r.next_char(), None);
    assert_eq!(r.next_char(), None);
    r.goto(c);
    assert_eq!(r.peek_char(), Some('c'));
    r.goto_begin();
    assert_eq!(r.get_cursor(), SourceCursor { pos: 0, line: 1, collumn: 1 });
}

#[test]
fn source_buffer_lines() {
    let buf = SourceBuffer::new(String::from("a.jol"), String::from("one\r\ntwo\n\nfour\n"));
    assert_eq!(buf.get_line(1), Some(String::from("one")));
    assert_eq!(buf.get_line(2), Some(String::from("two")));
    assert_eq!(buf.get_line(3), Some(String::from("")));
    assert_eq!(buf.get_line(4), Some(String::from("four")));
    assert_eq!(buf.get_line(5), None);
    assert_eq!(buf.len(), 15);
    assert_eq!(buf.path(), "a.jol");
}

#[test]
fn source_span_of_multibyte_text() {
    let buf = SourceBuffer::new(String::from("a.jol"), String::from("é😄x"));
    let r = SourceReader::new(&buf);
    let span = r.read_span(6).unwrap();
    assert_eq!(span.data, "é😄");
}
