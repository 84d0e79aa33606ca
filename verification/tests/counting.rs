use cwc::counter::count;
use cwc::counter::Metrics;
use cwc::counter::WcError;
use cwc::record::WcResult;

fn all_metrics() -> Metrics {
    Metrics { bytes: true, lines: true, words: true, chars: true }
}

fn only(bytes: bool, lines: bool, words: bool, chars: bool) -> Metrics {
    Metrics { bytes, lines, words, chars }
}

fn count_str(s: &str, m: Metrics) -> WcResult {
    count(&s.as_bytes().to_vec(), &m).expect("valid text must count")
}

#[test]
fn byte_count_is_raw_length() {
    let content: Vec<u8> = vec![0xFF, 0x00, 0x61];
    let r = count(&content, &only(true, false, false, false)).expect("bytes alone need no decoding");
    assert_eq!(r.bytes, Some(3));
    assert_eq!(r.lines, None);
    assert_eq!(r.words, None);
    assert_eq!(r.chars, None);
}

#[test]
fn byte_count_of_empty_input() {
    let r = count(&Vec::new(), &only(true, false, false, false)).expect("empty input counts");
    assert_eq!(r.bytes, Some(0));
}

#[test]
fn line_count_is_line_feed_occurrences() {
    assert_eq!(count_str("a\nb\nc", only(false, true, false, false)).lines, Some(2));
    assert_eq!(count_str("a\nb\nc\n", only(false, true, false, false)).lines, Some(3));
    assert_eq!(count_str("", only(false, true, false, false)).lines, Some(0));
}

#[test]
fn carriage_return_is_no_line_terminator() {
    assert_eq!(count_str("a\r\nb\r", only(false, true, false, false)).lines, Some(1));
}

#[test]
fn word_count_is_maximal_nonwhitespace_runs() {
    assert_eq!(count_str("  a  b ", only(false, false, true, false)).words, Some(2));
    assert_eq!(count_str("", only(false, false, true, false)).words, Some(0));
    assert_eq!(count_str("one", only(false, false, true, false)).words, Some(1));
    assert_eq!(count_str("one\ttwo\nthree four", only(false, false, true, false)).words, Some(4));
    assert_eq!(count_str("   \t\n ", only(false, false, true, false)).words, Some(0));
}

#[test]
fn unicode_whitespace_separates_words() {
    // U+00A0 (no-break space) and U+2003 (em space) carry the whitespace
    // property, so they end a word.
    assert_eq!(count_str("a\u{00A0}b", only(false, false, true, false)).words, Some(2));
    assert_eq!(count_str("a\u{2003}b", only(false, false, true, false)).words, Some(2));
    // U+200B (zero width space) is not whitespace.
    assert_eq!(count_str("a\u{200B}b", only(false, false, true, false)).words, Some(1));
}

#[test]
fn char_count_equals_byte_count_for_ascii() {
    let r = count_str("hello", all_metrics());
    assert_eq!(r.bytes, Some(5));
    assert_eq!(r.chars, Some(5));
}

#[test]
fn char_count_below_byte_count_for_multibyte() {
    let r = count_str("h\u{00E9}llo", all_metrics());
    assert_eq!(r.bytes, Some(6));
    assert_eq!(r.chars, Some(5));

    let euro = count_str("\u{20AC}", all_metrics());
    assert_eq!(euro.bytes, Some(3));
    assert_eq!(euro.chars, Some(1));

    let smiley = count_str("\u{1F600}", all_metrics());
    assert_eq!(smiley.bytes, Some(4));
    assert_eq!(smiley.chars, Some(1));
}

#[test]
fn decode_error_on_invalid_utf8_when_text_metric_requested() {
    let cases: Vec<Vec<u8>> = vec![
        vec![0xFF],
        vec![0xC0, 0x80],             // overlong two-byte encoding of NUL
        vec![0xC2],                   // truncated two-byte character
        vec![0xE0, 0x80, 0x80],       // overlong three-byte encoding
        vec![0xED, 0xA0, 0x80],       // surrogate code point
        vec![0xE2, 0x82],             // truncated three-byte character
        vec![0xF0, 0x80, 0x80, 0x80], // overlong four-byte encoding
        vec![0xF4, 0x90, 0x80, 0x80], // above U+10FFFF
        vec![0xF5, 0x80, 0x80, 0x80], // lead byte above 0xF4
        vec![0x61, 0x80],             // stray continuation byte
    ];
    for content in cases {
        let r = count(&content, &only(false, true, true, true));
        assert_eq!(r.unwrap_err(), WcError::DecodeError);
        // Byte counting alone never needs the bytes to decode.
        let b = count(&content, &only(true, false, false, false)).expect("bytes alone");
        assert_eq!(b.bytes, Some(content.len()));
    }
}

#[test]
fn valid_multibyte_boundaries_decode() {
    // Lowest and highest code points of each encoded width.
    let cases: Vec<(&str, usize)> = vec![
        ("\u{0080}", 1),
        ("\u{07FF}", 1),
        ("\u{0800}", 1),
        ("\u{D7FF}", 1),
        ("\u{E000}", 1),
        ("\u{FFFF}", 1),
        ("\u{10000}", 1),
        ("\u{10FFFF}", 1),
    ];
    for (s, chars) in cases {
        let r = count_str(s, all_metrics());
        assert_eq!(r.chars, Some(chars));
        assert_eq!(r.bytes, Some(s.len()));
    }
}

#[test]
fn new_record_has_no_label_and_no_metrics() {
    let r = WcResult::new();
    assert_eq!(r.file, String::new());
    assert_eq!(r.bytes, None);
    assert_eq!(r.lines, None);
    assert_eq!(r.words, None);
    assert_eq!(r.chars, None);
}

#[test]
fn add_absorbs_present_metrics_and_keeps_absent_ones() {
    let mut total = WcResult::new();
    let a = WcResult { file: "a".to_string(), bytes: Some(5), lines: None, words: Some(2), chars: None };
    total.add(&a);
    assert_eq!(total.bytes, Some(5));
    assert_eq!(total.lines, None);
    assert_eq!(total.words, Some(2));
    assert_eq!(total.chars, None);
    let b = WcResult { file: "b".to_string(), bytes: Some(7), lines: Some(1), words: None, chars: None };
    total.add(&b);
    assert_eq!(total.bytes, Some(12));
    assert_eq!(total.lines, Some(1));
    assert_eq!(total.words, Some(2));
    assert_eq!(total.chars, None);
    assert_eq!(total.file, String::new());
}

#[test]
fn folding_order_does_not_change_the_total() {
    let records = vec![
        WcResult { file: "a".to_string(), bytes: Some(3), lines: Some(1), words: Some(2), chars: Some(3) },
        WcResult { file: "b".to_string(), bytes: Some(10), lines: Some(4), words: Some(5), chars: Some(9) },
        WcResult { file: "c".to_string(), bytes: Some(0), lines: Some(0), words: Some(0), chars: Some(0) },
    ];
    let orders: Vec<[usize; 3]> =
        vec![[0, 1, 2], [0, 2, 1], [1, 0, 2], [1, 2, 0], [2, 0, 1], [2, 1, 0]];
    for order in orders {
        let mut total = WcResult::new();
        for i in order {
            assert!(total.can_add(&records[i]));
            total.add(&records[i]);
        }
        assert_eq!(total.bytes, Some(13));
        assert_eq!(total.lines, Some(5));
        assert_eq!(total.words, Some(7));
        assert_eq!(total.chars, Some(12));
    }
}

#[test]
fn no_requested_metric_defaults_to_bytes_lines_words() {
    let none = only(false, false, false, false);
    let normalized = none.normalized();
    assert_eq!(normalized, only(true, true, true, false));
    let r = count_str("hi there\n", normalized);
    assert_eq!(r.bytes, Some(9));
    assert_eq!(r.lines, Some(1));
    assert_eq!(r.words, Some(2));
    assert_eq!(r.chars, None);
}

#[test]
fn explicit_request_is_kept_as_given() {
    let m = only(false, false, false, true);
    assert_eq!(m.normalized(), m);
    let all = all_metrics();
    assert_eq!(all.normalized(), all);
}

#[test]
fn two_inputs_sum_to_a_total_row() {
    let m = all_metrics();
    let hello = count_str("hello world\n", m);
    assert_eq!(hello.bytes, Some(12));
    assert_eq!(hello.lines, Some(1));
    assert_eq!(hello.words, Some(2));
    assert_eq!(hello.chars, Some(12));
    let foo = count_str("foo\n", m);
    assert_eq!(foo.bytes, Some(4));
    assert_eq!(foo.lines, Some(1));
    assert_eq!(foo.words, Some(1));
    assert_eq!(foo.chars, Some(4));
    let mut total = WcResult::new();
    total.file = "total".to_string();
    total.add(&hello);
    total.add(&foo);
    assert_eq!(total.bytes, Some(16));
    assert_eq!(total.lines, Some(2));
    assert_eq!(total.words, Some(3));
    assert_eq!(total.chars, Some(16));
    assert_eq!(total.file, "total".to_string());
}

#[test]
fn total_reflects_only_inputs_that_produced_a_record() {
    // One input of a batch fails (here: its bytes do not decode); the other
    // is counted, and only it contributes to the total.
    let m = only(true, true, true, false);
    let good = count(&"hello world\n".as_bytes().to_vec(), &m);
    let bad = count(&vec![0xFF, 0xFE], &m);
    let mut total = WcResult::new();
    total.file = "total".to_string();
    let mut produced: usize = 0;
    for r in [good, bad] {
        if let Ok(rec) = r {
            total.add(&rec);
            produced += 1;
        }
    }
    assert_eq!(produced, 1);
    assert_eq!(total.bytes, Some(12));
    assert_eq!(total.lines, Some(1));
    assert_eq!(total.words, Some(2));
    assert_eq!(total.chars, None);
}

#[test]
fn add_guard_detects_overflowing_sums() {
    let mut total = WcResult::new();
    let big = WcResult { file: String::new(), bytes: Some(usize::MAX), lines: None, words: None, chars: None };
    assert!(total.can_add(&big));
    total.add(&big);
    let one = WcResult { file: String::new(), bytes: Some(1), lines: None, words: None, chars: None };
    assert!(!total.can_add(&one));
    assert!(total.can_add(&WcResult::new()));
}
