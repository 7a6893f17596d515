use std::io;

use pinentry_dms::assuan::{
    command_from_read, parse_command_line, Command, Error, Reader, Source, State, Writer,
};
use pinentry_dms::percent::{percent_decode, percent_encode};

fn written(f: impl FnOnce(&mut Writer<&mut Vec<u8>>)) -> String {
    let mut buf: Vec<u8> = Vec::new();
    {
        let mut w = Writer::new(&mut buf);
        f(&mut w);
        w.flush().unwrap();
    }
    String::from_utf8(buf).unwrap()
}

#[test]
fn writer_ok_lines() {
    assert_eq!(written(|w| w.ok("").unwrap()), "OK\n");
    assert_eq!(written(|w| w.ok("Pleased to meet you").unwrap()), "OK Pleased to meet you\n");
}

#[test]
fn writer_data_line_is_percent_encoded() {
    assert_eq!(written(|w| w.data("a%b\nc\rd+e f").unwrap()), "D a%25b%0Ac%0Dd+e f\n");
    assert_eq!(written(|w| w.data("").unwrap()), "D \n");
}

#[test]
fn writer_comment_line() {
    assert_eq!(written(|w| w.comment("hello").unwrap()), "# hello\n");
}

#[test]
fn writer_err_line_names_the_source() {
    assert_eq!(
        written(|w| w.err(&Error::canceled()).unwrap()),
        "ERR 83886179 Operation cancelled <Pinentry>\n"
    );
    assert_eq!(
        written(|w| w.err(&Error::timeout()).unwrap()),
        "ERR 83886142 Timeout <Pinentry>\n"
    );
    assert_eq!(
        written(|w| w.err(&Error::new(7, Source::Unspecified, "odd")).unwrap()),
        "ERR 7 odd\n"
    );
}

#[test]
fn error_new_keeps_fields_and_unspecified_source_is_zero() {
    let e = Error::new(300, Source::Unspecified, "x");
    assert_eq!(e.code, 300);
    assert_eq!(e.source, Source::Unspecified);
    assert_eq!(e.message, "x");
    assert_eq!(e.wire(), 300);
    assert_eq!(Error::not_confirmed().message, "Operation not confirmed");
    assert_eq!(Error::general().message, "General error");
}

#[test]
fn percent_decode_invalid_utf8_becomes_replacement_char() {
    assert_eq!(percent_decode("a%FFb"), "a\u{FFFD}b");
    assert_eq!(percent_decode("%C3%A9"), "é");
}

#[test]
fn percent_decode_without_percent_is_identity() {
    for s in ["", "plain text", "a+b c", "café ümlaut"] {
        assert_eq!(percent_decode(s), s);
    }
}

#[test]
fn percent_encode_output_has_no_line_breaks() {
    let e = percent_encode("one\ntwo\r\nthree%");
    assert!(!e.contains('\n') && !e.contains('\r'));
    assert_eq!(e, "one%0Atwo%0D%0Athree%25");
}

#[test]
fn settimeout_trims_and_handles_signs_and_range() {
    let mut s = State::default();
    let mut set = |p: &str| {
        s.apply_command(&Command { name: "SETTIMEOUT".into(), param: p.into() });
        s.timeout
    };
    assert_eq!(set(" 30 "), 30);
    assert_eq!(set("+5"), 5);
    assert_eq!(set("-5"), -5);
    assert_eq!(set("2147483647"), 2147483647);
    assert_eq!(set("2147483648"), 0);
    assert_eq!(set("-2147483648"), -2147483648);
    assert_eq!(set("-"), 0);
    assert_eq!(set(""), 0);
    assert_eq!(set("%2042"), 42);
    assert_eq!(set("4 2"), 0);
}

#[test]
fn apply_command_sets_each_field() {
    let mut s = State::default();
    let mut apply = |n: &str, p: &str| s.apply_command(&Command { name: n.into(), param: p.into() });
    assert!(apply("SETPROMPT", "PIN:"));
    assert!(apply("SETERROR", "bad"));
    assert!(apply("SETOK", "Yes"));
    assert!(apply("SETCANCEL", "No"));
    assert!(apply("SETNOTOK", "Nope"));
    assert!(!apply("settitle", "lower-case names are not recognized"));
    assert!(!apply("GETPIN", ""));
    assert_eq!(s.prompt, "PIN:");
    assert_eq!(s.error, "bad");
    assert_eq!(s.ok_label, "Yes");
    assert_eq!(s.cancel_label, "No");
    assert_eq!(s.not_ok_label, "Nope");
    assert_eq!(s.title, "");
}

#[test]
fn apply_option_keys_ignore_case_and_unknown_keys_change_nothing() {
    let mut s = State::default();
    let mut opt = |p: &str| s.apply_command(&Command { name: "OPTION".into(), param: p.into() });
    assert!(opt("TTYTYPE=xterm"));
    assert!(opt("lc-ctype=C.UTF-8"));
    assert!(opt("Display=:0"));
    assert!(opt("display"));
    assert!(opt("allow-external-password-cache"));
    assert!(opt("ttyname=a=b"));
    assert_eq!(s.tty_type, "xterm");
    assert_eq!(s.lc_ctype, "C.UTF-8");
    assert_eq!(s.display, "");
    assert_eq!(s.tty_name, "a=b");
    assert!(!s.grab);
}

#[test]
fn parse_command_line_cases() {
    let c = parse_command_line(b"option  grab\r\r\n");
    assert_eq!(c.name, "OPTION");
    assert_eq!(c.param, " grab");
    let c = parse_command_line(b"SetDesc caf\xc3\xa9 ok\n");
    assert_eq!(c.name, "SETDESC");
    assert_eq!(c.param, "café ok");
    let c = parse_command_line(b"bad\xff byte");
    assert_eq!(c.name, "BAD\u{FFFD}");
    assert_eq!(c.param, "byte");
    let c = parse_command_line(b"");
    assert_eq!(c.name, "");
    assert_eq!(c.param, "");
}

#[test]
fn long_lines_are_cut_to_the_limit() {
    let mut line = b"SETDESC ".to_vec();
    line.extend(std::iter::repeat(b'x').take(2000));
    line.push(b'\n');
    let c = parse_command_line(&line);
    assert_eq!(c.name, "SETDESC");
    assert_eq!(c.param.len(), 1000 - "SETDESC ".len());
}

#[test]
fn reader_reads_last_line_without_newline_then_eof() {
    let mut r = Reader::new(io::Cursor::new(b"NOP\nBYE"));
    assert_eq!(r.read_command().unwrap().unwrap().name, "NOP");
    assert_eq!(r.read_command().unwrap().unwrap().name, "BYE");
    assert!(r.read_command().unwrap().is_none());
}

#[test]
fn state_with_timeout_is_fresh() {
    let s = State::with_timeout(12);
    assert_eq!(s.timeout, 12);
    assert_eq!(s.title, "");
    assert!(!s.repeat && !s.grab);
}

#[test]
fn applying_a_command_twice_is_like_once() {
    for (n, p) in [("SETTITLE", "T%25"), ("SETREPEAT", "again"), ("OPTION", "GRAB"), ("SETTIMEOUT", " 9"), ("NOPE", "x")] {
        let mut once = State::with_timeout(3);
        let h1 = once.apply_command(&Command { name: n.into(), param: p.into() });
        let mut twice = once.clone();
        let h2 = twice.apply_command(&Command { name: n.into(), param: p.into() });
        assert_eq!(h1, h2);
        assert_eq!(format!("{:?}", once), format!("{:?}", twice));
    }
}

#[test]
fn command_from_read_maps_the_read_outcome() {
    let c = command_from_read(Ok(9), b"getpin x\n").unwrap().unwrap();
    assert_eq!(c.name, "GETPIN");
    assert_eq!(c.param, "x");
    assert!(command_from_read(Ok(0), b"").unwrap().is_none());
    let c = command_from_read(Ok(1), b"\n").unwrap().unwrap();
    assert_eq!(c.name, "");
    assert_eq!(c.param, "");
    let e = command_from_read(Err(io::Error::new(io::ErrorKind::BrokenPipe, "gone")), b"");
    assert_eq!(e.unwrap_err().kind(), io::ErrorKind::BrokenPipe);
}

#[test]
fn reader_takes_a_long_line_whole() {
    let mut input = "A".repeat(1500).into_bytes();
    input.push(b'\n');
    input.extend_from_slice(b"NOP\n");
    let mut r = Reader::new(io::Cursor::new(input));
    let c = r.read_command().unwrap().unwrap();
    assert_eq!(c.name, "A".repeat(1000));
    assert_eq!(c.param, "");
    assert_eq!(r.read_command().unwrap().unwrap().name, "NOP");
    assert!(r.read_command().unwrap().is_none());
}

#[test]
fn percent_encode_length_law() {
    for s in ["", "plain", "100%", "a\nb\rc%%", "café"] {
        let specials = s.chars().filter(|c| matches!(c, '%' | '\n' | '\r')).count();
        assert_eq!(percent_encode(s).chars().count(), s.chars().count() + 2 * specials);
    }
    assert_eq!(percent_encode("no escapes + here"), "no escapes + here");
}
