//! Tests of loader-listing parsing.

use ltrace_bcc::ldd::parse_ldd_libraries;

#[test]
fn extracts_path_after_arrow() {
    let out = b"\tlibc.so.6 => /lib/x86_64-linux-gnu/libc.so.6 (0x00007f44)\n";
    assert_eq!(
        parse_ldd_libraries(out),
        vec!["/lib/x86_64-linux-gnu/libc.so.6".to_string()]
    );
}

#[test]
fn keeps_line_order_and_skips_lines_without_arrow() {
    let out = b"\tlinux-vdso.so.1 (0x00007ffd)\n\
\tlibm.so.6 => /lib/libm.so.6 (0x00007f01)\n\
\tlibc.so.6 => /lib/libc.so.6 (0x00007f02)\n\
\t/lib64/ld-linux-x86-64.so.2 (0x00007f03)\n";
    assert_eq!(
        parse_ldd_libraries(out),
        vec!["/lib/libm.so.6".to_string(), "/lib/libc.so.6".to_string()]
    );
}

#[test]
fn skips_empty_path_after_arrow() {
    // The vdso line of some loaders has nothing but the address after the
    // arrow: the token before the first space is empty and is skipped.
    let out = b"\tlinux-vdso.so.1 =>  (0x00007ffc)\n";
    assert_eq!(parse_ldd_libraries(out), Vec::<String>::new());
}

#[test]
fn no_arrow_anywhere_yields_nothing() {
    assert_eq!(parse_ldd_libraries(b""), Vec::<String>::new());
    assert_eq!(parse_ldd_libraries(b"statically linked\n"), Vec::<String>::new());
}

#[test]
fn path_stops_at_first_space() {
    let out = b"a.so => /tmp/a.so (0x1) extra\n";
    assert_eq!(parse_ldd_libraries(out), vec!["/tmp/a.so".to_string()]);
}

#[test]
fn second_arrow_on_a_line_does_not_extend_the_path() {
    let out = b"x => /p/x => /q/y (0x1)\n";
    assert_eq!(parse_ldd_libraries(out), vec!["/p/x".to_string()]);
}

#[test]
fn buffer_without_trailing_newline_still_parses() {
    let out = b"libz.so.1 => /usr/lib/libz.so.1 (0x2)";
    assert_eq!(parse_ldd_libraries(out), vec!["/usr/lib/libz.so.1".to_string()]);
}
