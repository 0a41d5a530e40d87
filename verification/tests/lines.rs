use skipline::lines::{split_lines, LineSource};

#[test]
fn split_plain_lines() {
    let lines = split_lines(b"alpha\nbeta\ngamma\n");
    assert_eq!(lines, vec![b"alpha".to_vec(), b"beta".to_vec(), b"gamma".to_vec()]);
}

#[test]
fn split_keeps_trailing_run_without_newline() {
    let lines = split_lines(b"a\nb");
    assert_eq!(lines, vec![b"a".to_vec(), b"b".to_vec()]);
}

#[test]
fn split_empty_content() {
    assert!(split_lines(b"").is_empty());
}

#[test]
fn split_keeps_empty_middle_line() {
    let lines = split_lines(b"a\n\nb");
    assert_eq!(lines, vec![b"a".to_vec(), Vec::new(), b"b".to_vec()]);
}

#[test]
fn split_lone_newline_is_one_empty_line() {
    let lines = split_lines(b"\n");
    assert_eq!(lines, vec![Vec::<u8>::new()]);
}

#[test]
fn skip_then_read_rest_in_order() {
    let mut source = LineSource::new(b"one\ntwo\nthree\nfour\n");
    source.skip(1);
    assert_eq!(source.next_line(), Some(b"two".to_vec()));
    assert_eq!(source.next_line(), Some(b"three".to_vec()));
    assert_eq!(source.next_line(), Some(b"four".to_vec()));
    assert_eq!(source.next_line(), None);
}

#[test]
fn skip_past_end_is_quietly_short() {
    let mut source = LineSource::new(b"one\ntwo\n");
    source.skip(10);
    assert_eq!(source.next_line(), None);
}

#[test]
fn rewind_after_exhaustion_returns_first_line() {
    let mut source = LineSource::new(b"first\nsecond\n");
    assert_eq!(source.next_line(), Some(b"first".to_vec()));
    assert_eq!(source.next_line(), Some(b"second".to_vec()));
    assert_eq!(source.next_line(), None);
    source.rewind();
    assert_eq!(source.next_line(), Some(b"first".to_vec()));
}
