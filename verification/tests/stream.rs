use mini_lmk::stream::{LineBuffer, MAX_PENDING_BYTES};

fn feed_all(bytes: &[u8], chunk: usize) -> Vec<String> {
    let mut buf = LineBuffer::new();
    let mut lines = Vec::new();
    for part in bytes.chunks(chunk) {
        let (more, discarded) = buf.feed(part);
        assert_eq!(discarded, None);
        lines.extend(more);
    }
    lines
}

#[test]
fn chunks_do_not_matter() {
    let bytes = "one\r\n\n  two \n--- separator\n\u{e9}\u{1f600} three\n \t\nfour\r\r\nunfinished".as_bytes();
    let want = ["one", "two", "\u{e9}\u{1f600} three", "four"];
    for chunk in [1, 2, 3, 5, 7, 13, 64, 4096] {
        assert_eq!(feed_all(bytes, chunk), want);
    }
}

#[test]
fn lines_that_are_no_text_are_left_out() {
    let mut buf = LineBuffer::new();
    let (lines, discarded) = buf.feed(b"ok\n\xff\xfe\nstill ok\n");
    assert_eq!(lines, ["ok", "still ok"]);
    assert_eq!(discarded, None);
    // White space before the hyphens makes it a line.
    assert_eq!(buf.feed(b" --- x\n").0, ["--- x"]);
}

#[test]
fn an_oversized_line_is_thrown_away() {
    let mut buf = LineBuffer::new();
    assert_eq!(buf.feed(&vec![b'x'; MAX_PENDING_BYTES]), (vec![], None));
    assert_eq!(buf.feed(b"y"), (vec![], Some(MAX_PENDING_BYTES + 1)));
    assert_eq!(buf.feed(b"z\n"), (vec!["z".to_string()], None));
    // A line that ends in the same chunk is kept, however long it is.
    let mut long = vec![b'x'; MAX_PENDING_BYTES + 10];
    long.push(b'\n');
    let (lines, discarded) = buf.feed(&long);
    assert_eq!((lines[0].len(), discarded), (MAX_PENDING_BYTES + 10, None));
}
