use csv_migrator::chunks::{decode_legacy, file_chunks};
use csv_migrator::detect::{count_rows, detect_delimiter, detect_sample_delimiter, LineCounter, COMMA, TAB};

#[test]
fn first_line_decides_the_delimiter() {
    assert_eq!(detect_delimiter(b"a\tb\tc\n1,2,3,4,5\n"), Some(TAB));
    assert_eq!(detect_delimiter(b"a,b\tc\n"), Some(COMMA));
}

#[test]
fn first_line_without_delimiter_is_refused() {
    assert_eq!(detect_delimiter(b"abc\n1,2\n"), None);
    assert_eq!(detect_delimiter(b""), None);
}

#[test]
fn sample_delimiter_needs_twice_as_many_tabs() {
    assert_eq!(detect_sample_delimiter(b"a\tb\tc,d\n"), Some(COMMA));
    assert_eq!(detect_sample_delimiter(b"a\tb\tc\td,e\n"), Some(TAB));
    assert_eq!(detect_sample_delimiter(b"abc\ndef\n"), None);
}

#[test]
fn sample_delimiter_reads_five_lines_only() {
    assert_eq!(detect_sample_delimiter(b"a\nb\nc\nd\ne\nf,g\n"), None);
    assert_eq!(detect_sample_delimiter(b"a\nb\nc\nd\ne,f\n"), Some(COMMA));
}

#[test]
fn rows_are_counted_like_a_line_reader() {
    assert_eq!(count_rows(b""), 0);
    assert_eq!(count_rows(b"a"), 1);
    assert_eq!(count_rows(b"a\nb\n"), 2);
    assert_eq!(count_rows(b"a\nb"), 2);
    assert_eq!(count_rows(b"\n\n"), 2);
    assert_eq!(count_rows(b"a\r\nb\r\n"), 2);
}

#[test]
fn line_counter_takes_pieces() {
    let mut c = LineCounter::new();
    c.feed(b"head");
    c.feed(b"er\nrow 1\nro");
    c.feed(b"w 2");
    assert_eq!(c.bytes_fed(), 18);
    assert_eq!(c.total(), 3);
}

#[test]
fn legacy_bytes_keep_their_code_points() {
    let s: String = decode_legacy(&[0x61, 0xE9, 0xF1, 0x0D, 0x0A]).into_iter().collect();
    assert_eq!(s, "a\u{e9}\u{f1}\r\n");
}

#[test]
fn chunks_group_lines() {
    let (chunks, last) = file_chunks(b"l1\nl2\nl3", 2, 0);
    assert_eq!(chunks, vec!["l1\nl2\n".to_string(), "l3\n".to_string()]);
    assert!(last);
}

#[test]
fn chunks_from_an_offset() {
    let (chunks, last) = file_chunks(b"a\nb\nc\nd\n", 1, 2);
    assert_eq!(chunks, vec!["c\n".to_string(), "d\n".to_string(), "\n".to_string()]);
    assert!(last);
}

#[test]
fn chunks_stop_after_ten_groups() {
    let data: Vec<u8> = (0..30).map(|i| format!("{}\n", i)).collect::<String>().into_bytes();
    let (chunks, last) = file_chunks(&data, 2, 0);
    assert_eq!(chunks.len(), 10);
    assert_eq!(chunks[0], "0\n1\n");
    assert_eq!(chunks[9], "18\n19\n");
    assert!(!last);
    let (rest, last) = file_chunks(&data, 2, 20);
    assert_eq!(rest.len(), 6);
    assert_eq!(rest[5], "\n");
    assert!(last);
}

#[test]
fn chunks_past_the_end_are_empty() {
    let (chunks, last) = file_chunks(b"a\nb", 3, 10);
    assert!(chunks.is_empty());
    assert!(last);
    let (chunks, last) = file_chunks(b"a\nb", 0, 0);
    assert!(chunks.is_empty());
    assert!(!last);
}

#[test]
fn chunks_decode_legacy_bytes() {
    let (chunks, _) = file_chunks(&[0x63, 0x61, 0x66, 0xE9], 5, 0);
    assert_eq!(chunks, vec!["caf\u{e9}\n".to_string()]);
}
