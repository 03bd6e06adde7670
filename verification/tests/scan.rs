use wc_r::counts::Counts;
use wc_r::error::Failure;
use wc_r::mode::Mode;
use wc_r::scan::{begin, count_file, measure, must_read, Figures};
use wc_r::text::text_of;

fn everything() -> Mode {
    Mode { bytes: true, chars: true, words: true, lines: true, max_line_len: true, graphemes: false }
}

fn nothing() -> Mode {
    Mode {
        bytes: false,
        chars: false,
        words: false,
        lines: false,
        max_line_len: false,
        graphemes: false,
    }
}

fn counts(lines: usize, words: usize, bytes: u64, chars: usize, max_line_len: usize) -> Counts {
    Counts { words, lines, bytes, chars, max_line_len }
}

#[test]
fn empty_source_counts_nothing_in_every_mode() {
    for bits in 0..64u32 {
        let mode = Mode {
            bytes: bits & 1 != 0,
            chars: bits & 2 != 0,
            words: bits & 4 != 0,
            lines: bits & 8 != 0,
            max_line_len: bits & 16 != 0,
            graphemes: bits & 32 != 0,
        };
        assert_eq!(count_file(&mode, b"", None), Ok(counts(0, 0, 0, 0, 0)));
        assert_eq!(count_file(&mode, b"", Some(0)), Ok(counts(0, 0, 0, 0, 0)));
    }
}

#[test]
fn single_unterminated_line() {
    assert_eq!(count_file(&everything(), b"abc", None), Ok(counts(1, 1, 3, 3, 3)));
}

#[test]
fn two_terminated_lines() {
    assert_eq!(count_file(&everything(), b"a b\nc\n", None), Ok(counts(2, 3, 6, 6, 3)));
}

#[test]
fn only_what_is_asked_for_is_counted() {
    let lines_only = Mode { lines: true, ..nothing() };
    assert_eq!(count_file(&lines_only, b"a b\nc\n", None), Ok(counts(2, 0, 0, 0, 0)));
    let words_only = Mode { words: true, ..nothing() };
    assert_eq!(count_file(&words_only, b"a b\nc\n", None), Ok(counts(2, 3, 0, 0, 0)));
    let widest_only = Mode { max_line_len: true, ..nothing() };
    assert_eq!(count_file(&widest_only, b"a b\nc\n", None), Ok(counts(2, 0, 0, 6, 3)));
    let bytes_only = Mode { bytes: true, ..nothing() };
    assert_eq!(count_file(&bytes_only, b"a b\nc\n", None), Ok(counts(2, 0, 6, 0, 0)));
}

#[test]
fn a_sized_file_is_not_read_for_its_bytes_alone() {
    let bytes_only = Mode { bytes: true, ..nothing() };
    assert_eq!(count_file(&bytes_only, b"a b\nc\n", Some(6)), Ok(counts(0, 0, 6, 0, 0)));
    assert_eq!(count_file(&bytes_only, b"\xff\xfe", Some(2)), Ok(counts(0, 0, 2, 0, 0)));
}

#[test]
fn byte_count_by_size_and_by_read_agree() {
    let content = "na\u{ef}ve caf\u{e9}\n\nthird line".as_bytes();
    let size = content.len() as u64;
    let bytes_only = Mode { bytes: true, ..nothing() };
    let bytes_and_lines = Mode { bytes: true, lines: true, ..nothing() };
    let by_size = count_file(&bytes_only, content, Some(size)).unwrap();
    let with_lines = count_file(&bytes_and_lines, content, Some(size)).unwrap();
    let by_read = count_file(&bytes_and_lines, content, None).unwrap();
    assert_eq!(by_size.bytes, size);
    assert_eq!(with_lines.bytes, size);
    assert_eq!(by_read.bytes, size);
    assert_eq!(with_lines.lines, 3);
    assert_eq!(by_read.lines, 3);
}

#[test]
fn the_size_given_is_not_counted_twice() {
    assert_eq!(count_file(&everything(), b"a b\nc\n", Some(6)), Ok(counts(2, 3, 6, 6, 3)));
}

#[test]
fn invalid_text_is_a_decoding_failure() {
    assert_eq!(count_file(&everything(), b"ok\n\xff\xfe\n", None), Err(Failure::Decoding));
    let lines_only = Mode { lines: true, ..nothing() };
    assert_eq!(count_file(&lines_only, b"ok\n\xc3", Some(4)), Err(Failure::Decoding));
}

#[test]
fn one_terminator_is_left_out_of_the_widest_line() {
    let widest = Mode { max_line_len: true, ..nothing() };
    assert_eq!(count_file(&widest, b"abcd\r\n", None).unwrap().max_line_len, 5);
    assert_eq!(count_file(&widest, b"abcd\r", None).unwrap().max_line_len, 4);
    assert_eq!(count_file(&widest, b"abcd\x0c", None).unwrap().max_line_len, 4);
    assert_eq!(count_file(&widest, b"ab\x0ccd\n", None).unwrap().max_line_len, 5);
    assert_eq!(count_file(&widest, b"abcd", None).unwrap().max_line_len, 4);
    assert_eq!(count_file(&widest, b"\n", None).unwrap().max_line_len, 0);
}

#[test]
fn the_widest_line_wins() {
    let widest = Mode { max_line_len: true, ..nothing() };
    let c = count_file(&widest, b"ab\nabcdef\nabc\n", None).unwrap();
    assert_eq!(c.max_line_len, 6);
    assert_eq!(c.chars, 14);
}

#[test]
fn characters_are_scalar_values_or_grapheme_clusters() {
    let text = "e\u{301}a\u{310}\r\n".as_bytes();
    let scalars = Mode { chars: true, ..nothing() };
    let c = count_file(&scalars, text, None).unwrap();
    assert_eq!((c.chars, c.max_line_len), (6, 5));
    let clusters = Mode { chars: true, graphemes: true, ..nothing() };
    let c = count_file(&clusters, text, None).unwrap();
    assert_eq!((c.chars, c.max_line_len), (3, 2));
}

#[test]
fn words_are_split_at_unicode_white_space() {
    let words = Mode { words: true, ..nothing() };
    let text = "  one\ttwo\u{a0}three\u{2003}four\u{3000}five\u{85}six \n".as_bytes();
    assert_eq!(count_file(&words, text, None).unwrap().words, 6);
    assert_eq!(count_file(&words, "a\u{200b}b\u{180e}c".as_bytes(), None).unwrap().words, 1);
    assert_eq!(count_file(&words, b" \t\r\n\x0b\x0c", None).unwrap().words, 0);
}

#[test]
fn measuring_one_line() {
    let f = measure(&everything(), "h\u{e9}llo  w\u{f6}rld\n");
    assert_eq!(f, Figures { bytes: 15, words: 2, units: 13, terminated: true });
    let f = measure(&nothing(), "h\u{e9}llo  w\u{f6}rld");
    assert_eq!(f, Figures { bytes: 14, words: 0, units: 0, terminated: false });
}

#[test]
fn adding_lines_one_by_one() {
    let mode = everything();
    let mut c = Counts::default();
    for line in ["a b\n", "c\n"] {
        let f = measure(&mode, line);
        assert!(c.can_take(&mode, false, &f));
        c.take(&mode, false, &f);
    }
    assert_eq!(c, counts(2, 3, 6, 6, 3));
    let mut d = Counts::default();
    assert!(d.add_line(&mode, false, "a b\n"));
    assert!(d.add_line(&mode, false, "c\n"));
    assert!(d.add_line(&mode, false, ""));
    assert_eq!(d, c);
}

#[test]
fn a_full_counter_takes_no_more() {
    let mode = everything();
    let full = Counts { lines: usize::MAX, ..Counts::default() };
    let f = measure(&mode, "x\n");
    assert!(!full.can_take(&mode, false, &f));
    let wordy = Counts { words: usize::MAX, ..Counts::default() };
    assert!(!wordy.can_take(&mode, false, &f));
    assert!(wordy.can_take(&Mode { words: false, ..mode }, false, &f));
    let heavy = Counts { bytes: u64::MAX, ..Counts::default() };
    assert!(!heavy.can_take(&mode, false, &f));
    assert!(heavy.can_take(&mode, true, &f));
    assert!(full.can_take(&mode, false, &measure(&mode, "")));
}

#[test]
fn a_line_that_does_not_fit_is_not_added() {
    let mode = everything();
    let mut full = Counts { lines: usize::MAX, words: 3, bytes: 9, chars: 9, max_line_len: 4 };
    let before = full;
    assert!(!full.add_line(&mode, false, "one more\n"));
    assert_eq!(full, before);
    assert!(full.add_line(&mode, false, ""));
    assert_eq!(full, before);
}

#[test]
fn lines_of_a_sized_file_add_no_bytes() {
    let mode = everything();
    let mut c = begin(&mode, Some(6));
    assert_eq!(c, counts(0, 0, 6, 0, 0));
    assert!(must_read(&mode, Some(6)));
    assert!(c.add_line(&mode, true, "a b\n"));
    assert!(c.add_line(&mode, true, "c\n"));
    assert_eq!(c, counts(2, 3, 6, 6, 3));
    assert_eq!(Ok(c), count_file(&mode, b"a b\nc\n", Some(6)));
}

#[test]
fn a_stream_is_always_read() {
    assert!(must_read(&nothing(), None));
    assert!(!must_read(&nothing(), Some(1)));
    assert!(!must_read(&Mode { bytes: true, ..nothing() }, Some(1)));
    assert!(must_read(&Mode { bytes: true, ..nothing() }, None));
    assert!(must_read(&Mode { lines: true, ..nothing() }, Some(1)));
    assert_eq!(begin(&nothing(), Some(5)), counts(0, 0, 0, 0, 0));
    assert_eq!(begin(&everything(), None), counts(0, 0, 0, 0, 0));
}

#[test]
fn text_is_decoded_or_refused() {
    assert_eq!(text_of("gr\u{fc}n".as_bytes()), Some("gr\u{fc}n"));
    assert_eq!(text_of(b""), Some(""));
    assert_eq!(text_of(b"\xc3\x28"), None);
    assert_eq!(text_of(b"\xed\xa0\x80"), None);
    assert_eq!(text_of(b"\xc0\x80"), None);
}
