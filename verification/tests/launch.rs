use dsh_desktop::launch::LaunchUrlScanner;

#[test]
fn scanner_reports_token_url_from_one_chunk() {
    let mut s = LaunchUrlScanner::new();
    let r = s.feed("starting...\ndsh web: http://127.0.0.1:3080/?token=abc123 (LAN: http://10.0.0.2:3080)\n");
    assert_eq!(r.as_deref(), Some("http://127.0.0.1:3080/?token=abc123"));
    assert!(s.is_done());
}

#[test]
fn scanner_ignores_line_without_token() {
    let mut s = LaunchUrlScanner::new();
    assert_eq!(s.feed("dsh web: http://127.0.0.1:3080\n"), None);
    assert!(s.is_done());
    assert_eq!(s.feed("dsh web: http://127.0.0.1:3080/?token=x\n"), None);
}

#[test]
fn scanner_waits_for_url_terminator_across_chunks() {
    let mut s = LaunchUrlScanner::new();
    assert_eq!(s.feed("dsh web: http://127.0.0.1:3080/?tok"), None);
    assert!(!s.is_done());
    assert_eq!(s.feed("en=zz9"), None);
    assert_eq!(s.feed(" (LAN: off)\n").as_deref(), Some("http://127.0.0.1:3080/?token=zz9"));
    assert!(s.is_done());
}

#[test]
fn scanner_finds_marker_split_across_chunks() {
    let mut s = LaunchUrlScanner::new();
    assert_eq!(s.feed("some long banner text before the line ... dsh w"), None);
    assert_eq!(s.feed("eb: http://h/?token=t\n").as_deref(), Some("http://h/?token=t"));
}

#[test]
fn scanner_tolerates_ansi_noise() {
    let mut s = LaunchUrlScanner::new();
    let r = s.feed("\x1b[32mdsh web:\x1b[0m \x1b[4mhttp://h:1/?token=q\x1b[24m(LAN)\r\n");
    assert_eq!(r.as_deref(), Some("http://h:1/?token=q"));
}

#[test]
fn scanner_chunked_equals_whole() {
    let text = "boot\ndsh web: http://127.0.0.1:3080/?token=k1 (LAN: x)\n";
    let mut whole = LaunchUrlScanner::new();
    let w = whole.feed(text);
    for cut in 0..text.len() {
        if !text.is_char_boundary(cut) {
            continue;
        }
        let mut s = LaunchUrlScanner::new();
        let a = s.feed(&text[..cut]);
        let b = s.feed(&text[cut..]);
        assert_eq!(a.or(b), w, "cut at {}", cut);
    }
}

#[test]
fn scanner_gives_up_on_overlong_pending_line() {
    let mut s = LaunchUrlScanner::new();
    let mut long = String::from("dsh web: http://");
    long.push_str(&"a".repeat(9000));
    assert_eq!(s.feed(&long), None);
    assert!(s.is_done());
    assert_eq!(s.feed("?token=x \n"), None);
}

#[test]
fn scanner_default_is_fresh() {
    let mut s = LaunchUrlScanner::default();
    assert!(!s.is_done());
    assert_eq!(s.feed("dsh web: http://x/?token=1\n").as_deref(), Some("http://x/?token=1"));
}

#[test]
fn scanner_capture_decodes_bytes() {
    let mut s = LaunchUrlScanner::new();
    let mut bytes = b"\xff\xfe noise dsh web: http://h/?token=b".to_vec();
    bytes.extend_from_slice(b" \n");
    assert_eq!(s.capture(&bytes).as_deref(), Some("http://h/?token=b"));
}

#[test]
fn scanner_capture_replaces_invalid_bytes_in_url() {
    let mut s = LaunchUrlScanner::new();
    let r = s.capture(b"dsh web: http://h/\xff?token=1 ");
    assert_eq!(r.as_deref(), Some("http://h/\u{FFFD}?token=1"));
}

#[test]
fn scanner_url_ends_at_paren() {
    let mut s = LaunchUrlScanner::new();
    assert_eq!(s.feed("dsh web: http://h/?token=z(LAN)").as_deref(), Some("http://h/?token=z"));
}

#[test]
fn scanner_needs_token_in_the_url_itself() {
    let mut s = LaunchUrlScanner::new();
    assert_eq!(s.feed("dsh web: http://h (LAN: http://l/?token=x)\n"), None);
    assert!(s.is_done());
    let mut t = LaunchUrlScanner::new();
    assert_eq!(t.feed("dsh web: http://h/ token=1"), None);
}

#[test]
fn scanner_any_chunking_equals_whole() {
    let text = "banner\r\ndsh web: http://127.0.0.1:3080/?token=abc (LAN: x)\r\nmore\n";
    let mut whole = LaunchUrlScanner::new();
    let w = whole.feed(text);
    assert_eq!(w.as_deref(), Some("http://127.0.0.1:3080/?token=abc"));
    for i in 0..text.len() {
        for j in i..text.len() {
            let mut s = LaunchUrlScanner::new();
            let r = [&text[..i], &text[i..j], &text[j..]]
                .iter()
                .fold(None, |acc: Option<String>, c| { let r = s.feed(c); acc.or(r) });
            assert_eq!(r, w, "cuts at {} and {}", i, j);
            assert!(s.is_done());
        }
    }
}
