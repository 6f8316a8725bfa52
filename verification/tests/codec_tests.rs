//! Tests of the event record codec, text conversion and rendering.

use ltrace_bcc::codec::decode;
use ltrace_bcc::codec::encode_record;
use ltrace_bcc::codec::get_string;
use ltrace_bcc::codec::render_record;
use ltrace_bcc::codec::FIELD_LEN;
use ltrace_bcc::codec::RECORD_SIZE;
use ltrace_bcc::orchestrate::handle_event;
use ltrace_bcc::TraceError;

#[test]
fn record_size_matches_layout() {
    assert_eq!(FIELD_LEN, 20);
    assert_eq!(RECORD_SIZE, 64);
}

#[test]
fn decode_exact_size_never_fails() {
    let buf = vec![0u8; RECORD_SIZE];
    let rec = decode(&buf).unwrap();
    assert_eq!(rec.libc_function.len(), FIELD_LEN);
    assert_eq!(rec.arg1_contents.len(), FIELD_LEN);
    assert_eq!(rec.arg1, 0);
    assert_eq!(rec.arg2, 0);
    assert_eq!(rec.arg3, 0);
}

#[test]
fn decode_shorter_buffer_always_fails() {
    for len in 0..RECORD_SIZE {
        let buf = vec![7u8; len];
        assert_eq!(decode(&buf).unwrap_err(), TraceError::MalformedRecord);
    }
}

#[test]
fn decode_ignores_trailing_bytes() {
    let mut buf = encode_record(b"open", b"x", 1, 2, 3);
    buf.push(0xAB);
    let rec = decode(&buf).unwrap();
    assert_eq!(get_string(&rec.libc_function), "open");
}

#[test]
fn decode_reads_little_endian_words() {
    let mut buf = vec![0u8; RECORD_SIZE];
    buf[40] = 0x78;
    buf[41] = 0x56;
    buf[42] = 0x34;
    buf[43] = 0x12;
    buf[48] = 1;
    buf[56] = 2;
    buf[57] = 1;
    let rec = decode(&buf).unwrap();
    assert_eq!(rec.arg1, 0x12345678);
    assert_eq!(rec.arg2, 1);
    assert_eq!(rec.arg3, 258);
}

#[test]
fn encode_then_decode_round_trips_name() {
    let names = ["open", "read", "close"];
    for name in names {
        let buf = encode_record(name.as_bytes(), b"some data", 42, 7, 9);
        assert_eq!(buf.len(), RECORD_SIZE);
        let rec = decode(&buf).unwrap();
        let trimmed = get_string(&rec.libc_function);
        assert!(names.contains(&trimmed.as_str()));
        assert_eq!(trimmed, name);
        assert_eq!(rec.arg1, 42);
        assert_eq!(rec.arg2, 7);
        assert_eq!(rec.arg3, 9);
        assert_eq!(get_string(&rec.arg1_contents), "some data");
    }
}

#[test]
fn encode_truncates_name_to_field_width() {
    let buf = encode_record(b"a_very_long_function_name_indeed", b"", 0, 0, 0);
    let rec = decode(&buf).unwrap();
    assert_eq!(get_string(&rec.libc_function), "a_very_long_function");
}

#[test]
fn get_string_full_buffer_when_no_zero() {
    let buf = b"abcdefghij";
    let s = get_string(buf);
    assert_eq!(s.len(), buf.len());
    assert_eq!(s, "abcdefghij");
}

#[test]
fn get_string_empty_on_leading_zero() {
    let buf = [0u8, b'a', b'b'];
    assert_eq!(get_string(&buf), "");
}

#[test]
fn get_string_stops_at_first_zero() {
    let buf = [b'h', b'i', 0, b'x', 0, b'y'];
    assert_eq!(get_string(&buf), "hi");
}

#[test]
fn get_string_is_lossy_on_invalid_utf8() {
    let buf = [0xFFu8, b'A'];
    assert_eq!(get_string(&buf), "\u{FFFD}A");
}

#[test]
fn render_record_formats_expected_line() {
    let buf = encode_record(b"open", b"hi", 5, 0, 77);
    let rec = decode(&buf).unwrap();
    assert_eq!(render_record(&rec), "open(5 [hi],0,77)");
}

#[test]
fn handle_event_renders_or_rejects() {
    let buf = encode_record(b"write", b"abc", 1, 2, 3);
    assert_eq!(handle_event(&buf).unwrap(), "write(1 [abc],2,3)");
    let short = vec![0u8; RECORD_SIZE - 1];
    assert_eq!(handle_event(&short).unwrap_err(), TraceError::MalformedRecord);
}

#[test]
fn render_record_large_arguments() {
    let buf = encode_record(b"mmap", b"", u64::MAX, 10, 123456789);
    let rec = decode(&buf).unwrap();
    assert_eq!(render_record(&rec), "mmap(18446744073709551615 [],10,123456789)");
}
