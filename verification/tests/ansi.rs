use dsh_desktop::ansi::strip_ansi;

#[test]
fn strip_removes_color_sequences() {
    assert_eq!(strip_ansi("\x1b[32mready\x1b[0m"), "ready");
}

#[test]
fn strip_removes_carriage_returns() {
    assert_eq!(strip_ansi("line one\r\nline two\r"), "line one\nline two");
}

#[test]
fn strip_removes_osc_ended_by_bell() {
    assert_eq!(strip_ansi("a\x1b]0;window title\x07b"), "ab");
}

#[test]
fn strip_removes_osc_ended_by_string_terminator() {
    assert_eq!(strip_ansi("a\x1b]8;;http://x\x1b\\link"), "alink");
}

#[test]
fn strip_removes_two_character_escape() {
    assert_eq!(strip_ansi("x\x1b=y"), "xy");
}

#[test]
fn strip_drops_trailing_escape() {
    assert_eq!(strip_ansi("abc\x1b"), "abc");
}

#[test]
fn strip_drops_unterminated_sequences() {
    assert_eq!(strip_ansi("abc\x1b[12;3"), "abc");
    assert_eq!(strip_ansi("abc\x1b]title"), "abc");
}

#[test]
fn strip_keeps_plain_text() {
    let s = "dsh web: http://127.0.0.1:3080/?token=abc (LAN: x) — ünïcode";
    assert_eq!(strip_ansi(s), s);
}

#[test]
fn strip_is_idempotent() {
    let s = "\x1b[1m\x1b[34mdsh\x1b[0m web:\r http://h\x1b]0;t\x07";
    let once = strip_ansi(s);
    assert_eq!(strip_ansi(&once), once);
    assert_eq!(once, "dsh web: http://h");
}

#[test]
fn strip_output_has_no_cr_or_escape() {
    let out = strip_ansi("\r\x1b\x1b[\x1b]x\r\x1b[mz\x1b");
    assert!(!out.contains('\r'));
    assert!(!out.contains('\x1b'));
}

#[test]
fn strip_csi_ends_at_any_final_byte() {
    assert_eq!(strip_ansi("\x1b[2Kcleared"), "cleared");
    assert_eq!(strip_ansi("\x1b[?25hshown"), "shown");
}
