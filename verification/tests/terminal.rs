use testshell::terminal::ByteClass;
use testshell::terminal::Terminal;
use testshell::terminal::classify;

#[test]
fn printable_lines_split_on_line_feeds() {
    let mut t = Terminal::new();
    t.feed(b"first line\nsecond\nthird\n");
    assert_eq!(t.scrollback_len(), 3);
    assert_eq!(t.scrollback_at(0).as_slice(), b"first line");
    assert_eq!(t.scrollback_at(1).as_slice(), b"second");
    assert_eq!(t.scrollback_at(2).as_slice(), b"third");
    assert_eq!(t.line().len(), 0);
}

#[test]
fn trailing_text_stays_on_the_current_line() {
    let mut t = Terminal::new();
    t.feed(b"done\npart");
    assert_eq!(t.scrollback_len(), 1);
    assert_eq!(t.scrollback_at(0).as_slice(), b"done");
    assert_eq!(t.line().as_slice(), b"part");
}

#[test]
fn backspaces_erase_typed_text() {
    let mut t = Terminal::new();
    t.feed(b"hello");
    t.feed(&[8, 8, 8, 8, 8]);
    t.feed(b"bye");
    assert_eq!(t.line().as_slice(), b"bye");
}

#[test]
fn backspace_at_column_zero_does_nothing() {
    let mut t = Terminal::new();
    t.feed(&[8]);
    assert_eq!(t.line().len(), 0);
    t.feed(b"a\r");
    t.feed(&[8]);
    assert_eq!(t.line().as_slice(), b"a");
}

#[test]
fn carriage_return_overwrites_prefix_and_keeps_suffix() {
    let mut t = Terminal::new();
    t.feed(b"foobar");
    t.feed(&[13]);
    t.feed(b"baz");
    assert_eq!(t.line().as_slice(), b"bazbar");
}

#[test]
fn tab_is_an_ordinary_inserted_character() {
    let mut t = Terminal::new();
    t.feed(b"a\tb");
    assert_eq!(t.line().as_slice(), b"a\tb");
}

#[test]
fn unsupported_control_bytes_are_discarded() {
    let mut t = Terminal::new();
    t.feed(b"ok");
    let before = t.snapshot();
    // Escape, bell, and a high byte: none affects the reconstructed text.
    t.feed(&[0x1b, 0x07, 0xff]);
    assert_eq!(t.snapshot(), before);
    assert_eq!(t.line().as_slice(), b"ok");
}

#[test]
fn snapshot_tracks_both_lengths() {
    let mut t = Terminal::new();
    let s0 = t.snapshot();
    assert_eq!(s0.line_len, 0);
    assert_eq!(s0.scrollback_len, 0);
    t.feed(b"ab");
    assert_eq!(t.snapshot().line_len, 2);
    t.feed(b"\n");
    let s1 = t.snapshot();
    assert_eq!(s1.line_len, 0);
    assert_eq!(s1.scrollback_len, 1);
}

#[test]
fn byte_classification() {
    assert_eq!(classify(b'\n'), ByteClass::LineFeed);
    assert_eq!(classify(b'\r'), ByteClass::CarriageReturn);
    assert_eq!(classify(8), ByteClass::Backspace);
    assert_eq!(classify(b'\t'), ByteClass::Printable);
    assert_eq!(classify(b' '), ByteClass::Printable);
    assert_eq!(classify(b'~'), ByteClass::Printable);
    assert_eq!(classify(0x1b), ByteClass::Ignored);
    assert_eq!(classify(0x00), ByteClass::Ignored);
    assert_eq!(classify(0x7f), ByteClass::Ignored);
}
