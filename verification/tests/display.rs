use cliphist::util::{human_age, human_bytes, is_wayland, lock_holder, preview, truncate, which_candidates};

#[test]
fn human_bytes_below_a_kilobyte() {
    assert_eq!(human_bytes(0), "0 B");
    assert_eq!(human_bytes(512), "512 B");
    assert_eq!(human_bytes(1023), "1023 B");
}

#[test]
fn human_bytes_kilobytes() {
    assert_eq!(human_bytes(1024), "1.0 KB");
    assert_eq!(human_bytes(1536), "1.5 KB");
    assert_eq!(human_bytes(250_880), "245.0 KB");
    assert_eq!(human_bytes(1024 * 1024 - 1), "1024.0 KB");
}

#[test]
fn human_bytes_megabytes() {
    assert_eq!(human_bytes(1024 * 1024), "1.0 MB");
    assert_eq!(human_bytes(20 * 1024 * 1024), "20.0 MB");
}

#[test]
fn human_bytes_agrees_with_float_formatting_in_kilobytes() {
    let mut n: usize = 1024;
    while n < 1024 * 1024 {
        assert_eq!(human_bytes(n), format!("{:.1} KB", n as f64 / 1024.0), "n = {}", n);
        n += 7;
    }
}

#[test]
fn human_bytes_agrees_with_float_formatting_on_ties() {
    // 10 * n / 1024 lands exactly halfway between two tenths.
    for n in 1024usize..(1024 * 1024) {
        if (10 * n) % 1024 == 512 {
            assert_eq!(human_bytes(n), format!("{:.1} KB", n as f64 / 1024.0), "n = {}", n);
        }
    }
    let mb = 1024.0 * 1024.0;
    for n in [5usize << 18, 15 << 18, 25 << 18, 35 << 18, 45 << 18] {
        assert_eq!(human_bytes(n), format!("{:.1} MB", n as f64 / mb), "n = {}", n);
    }
}

#[test]
fn human_bytes_agrees_with_float_formatting_in_megabytes() {
    let mb = 1024.0 * 1024.0;
    let mut n: usize = 1024 * 1024;
    while n < 64 * 1024 * 1024 {
        assert_eq!(human_bytes(n), format!("{:.1} MB", n as f64 / mb), "n = {}", n);
        n += 12_345;
    }
    for n in [
        (1usize << 53) - 1,
        1 << 53,
        (1 << 53) + 1,
        (1 << 53) + 3,
        (1 << 60) + 12_345,
        usize::MAX,
        usize::MAX - 1024,
    ] {
        assert_eq!(human_bytes(n), format!("{:.1} MB", n as f64 / mb), "n = {}", n);
    }
}

#[test]
fn human_age_units() {
    assert_eq!(human_age(0), "0s");
    assert_eq!(human_age(59), "59s");
    assert_eq!(human_age(60), "1m");
    assert_eq!(human_age(3599), "59m");
    assert_eq!(human_age(3600), "1h");
    assert_eq!(human_age(86399), "23h");
    assert_eq!(human_age(86400), "1d");
    assert_eq!(human_age(10 * 86400 + 5), "10d");
}

#[test]
fn preview_joins_lines() {
    assert_eq!(preview("  hello\n\n  world  \n", 100), "hello \u{23ce} world");
    assert_eq!(preview("one\r\ntwo", 100), "one \u{23ce} two");
}

#[test]
fn preview_collapses_whitespace() {
    assert_eq!(preview("a\tb   c", 100), "a b c");
    assert_eq!(preview("", 10), "");
    assert_eq!(preview(" \n \t ", 10), "");
}

#[test]
fn preview_truncates() {
    assert_eq!(preview("abcdef", 4), "abc\u{2026}");
    assert_eq!(preview("abcd", 4), "abcd");
}

#[test]
fn preview_is_one_short_line() {
    let text = "first line\n\tsecond   line\r\n\n third\u{2003}line \n".repeat(20);
    for width in [0usize, 1, 5, 40, 1000] {
        let p = preview(&text, width);
        assert!(!p.contains('\n'));
        assert!(p.chars().all(|c| c == ' ' || !c.is_whitespace()));
        assert!(p.chars().count() <= width.max(1));
    }
}

#[test]
fn truncate_cases() {
    assert_eq!(truncate("hello", 5), "hello");
    assert_eq!(truncate("hello", 4), "hel\u{2026}");
    assert_eq!(truncate("hello", 1), "\u{2026}");
    assert_eq!(truncate("hello", 0), "\u{2026}");
    assert_eq!(truncate("", 0), "");
    assert_eq!(truncate("h\u{e9}llo w\u{f6}rld", 5), "h\u{e9}ll\u{2026}");
}

#[test]
fn wayland_detection() {
    assert!(is_wayland(true, None));
    assert!(is_wayland(true, Some("x11")));
    assert!(is_wayland(false, Some("wayland")));
    assert!(!is_wayland(false, Some("x11")));
    assert!(!is_wayland(false, None));
}

#[test]
fn which_looks_in_every_path_directory() {
    assert_eq!(which_candidates("/usr/bin:/bin", "xclip"), vec!["/usr/bin/xclip".to_string(), "/bin/xclip".to_string()]);
    assert_eq!(which_candidates("/usr/local/bin/", "x"), vec!["/usr/local/bin/x".to_string()]);
    assert_eq!(which_candidates("", "x"), vec!["x".to_string()]);
}

#[test]
fn lock_holder_reads_the_pid() {
    assert_eq!(lock_holder("1234\n"), Some(1234));
    assert_eq!(lock_holder(" -5 "), Some(-5));
    assert_eq!(lock_holder(""), None);
    assert_eq!(lock_holder("abc"), None);
    assert_eq!(lock_holder("99999999999"), None);
}

#[test]
fn whitespace_is_unicode_white_space() {
    for u in 0u32..0x11_0000 {
        if let Some(c) = char::from_u32(u) {
            assert_eq!(cliphist::text::is_whitespace(c), c.is_whitespace(), "U+{:04X}", u);
        }
    }
}

#[test]
fn chars_and_strings_roundtrip() {
    let s = "h\u{e9}llo \u{1f600} w\u{f6}rld\n";
    let v = cliphist::text::chars_of(s);
    assert_eq!(v, s.chars().collect::<Vec<char>>());
    assert_eq!(cliphist::text::string_of(&v), s);
}

#[test]
fn already_running_messages() {
    assert_eq!(cliphist::util::already_running(Some(42)), "daemon is already running (pid 42). Stop it with: kill 42");
    assert_eq!(cliphist::util::already_running(None), "daemon is already running");
}
