use cliphist::clip::{
    auto_paste, clipboard_source, decode_text, fallback_tool, grab_plan, grab_step, window_id, Attempt, Grab,
    PasteStep, Source, Tool,
};
use cliphist::daemon::{is_stale, set_reply, Poller, SetOutcome, Step, Token, READ_RETRIES};
use cliphist::db::Entry;
use cliphist::ipc::{client_reply, handle, is_ok_reply, set_request, Handled};

fn reply(h: Handled) -> Option<String> {
    match h {
        Handled::Reply(s) => Some(s),
        Handled::Forward(_) => None,
    }
}

fn forward(h: Handled) -> Option<i64> {
    match h {
        Handled::Forward(id) => Some(id),
        Handled::Reply(_) => None,
    }
}

#[test]
fn ping_and_set() {
    assert_eq!(reply(handle("PING")), Some("OK".to_string()));
    assert_eq!(reply(handle("PING extra\n")), Some("OK".to_string()));
    assert_eq!(forward(handle("SET 42\n")), Some(42));
    assert_eq!(forward(handle("  SET  -7 ")), Some(-7));
    assert_eq!(forward(handle("SET +3")), Some(3));
}

#[test]
fn bad_requests() {
    assert_eq!(reply(handle("SET abc")), Some("ERR invalid id".to_string()));
    assert_eq!(reply(handle("SET 99999999999999999999")), Some("ERR invalid id".to_string()));
    assert_eq!(reply(handle("SET")), Some("ERR unknown command".to_string()));
    assert_eq!(reply(handle("FOO 1")), Some("ERR unknown command".to_string()));
    assert_eq!(reply(handle("")), Some("ERR unknown command".to_string()));
    assert_eq!(reply(handle("ping")), Some("ERR unknown command".to_string()));
}

#[test]
fn set_request_reaches_the_daemon() {
    assert_eq!(set_request(42), "SET 42");
    for id in [0, 1, -1, 42, i64::MIN, i64::MAX, 123_456_789] {
        assert_eq!(forward(handle(&set_request(id))), Some(id));
        assert_eq!(forward(handle(&format!("{}\n", set_request(id)))), Some(id));
    }
}

#[test]
fn client_replies() {
    assert_eq!(client_reply("OK\n"), Ok(()));
    assert_eq!(client_reply("ERR timeout\n"), Err("ERR timeout".to_string()));
    assert_eq!(client_reply(""), Err(String::new()));
    assert!(is_ok_reply(" OK \n"));
    assert!(!is_ok_reply("OKAY"));
}

fn tok(sig: Option<&[u8]>, owner: Option<u32>) -> Token {
    Token { signature: sig.map(|s| s.to_vec()), owner }
}

#[test]
fn poller_captures_changes() {
    let mut p = Poller::new();
    assert_eq!(p.tick(), 0);
    p.begin_tick(false);
    assert!(matches!(p.step(&tok(None, None)), Step::Skip));
    assert!(matches!(p.step(&tok(Some(b"t1"), Some(7))), Step::Capture));
    p.record_capture(tok(Some(b"t1"), Some(7)), true);
    assert!(matches!(p.step(&tok(Some(b"t1"), Some(7))), Step::Idle));
    assert!(matches!(p.step(&tok(Some(b"t2"), Some(7))), Step::Capture));
    assert!(matches!(p.step(&tok(Some(b"t1"), Some(8))), Step::Capture));
}

#[test]
fn poller_retries_empty_reads() {
    let mut p = Poller::new();
    p.begin_tick(false);
    let t = tok(Some(b"slow"), Some(3));
    for _ in 0..(READ_RETRIES - 1) {
        assert!(matches!(p.step(&t), Step::Capture));
        p.record_capture(tok(Some(b"slow"), Some(3)), false);
    }
    assert!(matches!(p.step(&t), Step::Capture));
    p.record_capture(tok(Some(b"slow"), Some(3)), false);
    assert!(matches!(p.step(&t), Step::Idle));
}

#[test]
fn poller_rescans() {
    let mut p = Poller::new();
    p.record_capture(tok(None, Some(5)), true);
    for _ in 0..4 {
        p.begin_tick(false);
    }
    assert!(matches!(p.step(&tok(None, Some(5))), Step::Idle));
    p.begin_tick(false);
    assert_eq!(p.tick(), 5);
    assert!(matches!(p.step(&tok(None, Some(5))), Step::Rescan));
    let mut q = Poller::new();
    q.record_capture(tok(Some(b"ts"), Some(5)), true);
    for _ in 0..5 {
        q.begin_tick(false);
    }
    assert!(matches!(q.step(&tok(Some(b"ts"), Some(5))), Step::Idle));
    for _ in 0..25 {
        q.begin_tick(false);
    }
    assert!(matches!(q.step(&tok(Some(b"ts"), Some(5))), Step::Rescan));
    q.forget_token();
    assert!(matches!(q.step(&tok(Some(b"ts"), Some(5))), Step::Capture));
}

#[test]
fn stale_requests_and_replies() {
    assert!(!is_stale(9_000_000_000));
    assert!(is_stale(9_000_000_001));
    assert!(!is_stale(0));
    assert_eq!(set_reply(SetOutcome::Stale), "ERR stale request, dropped");
    assert_eq!(set_reply(SetOutcome::Missing(5)), "ERR no entry with id=5");
    assert_eq!(set_reply(SetOutcome::Missing(-2)), "ERR no entry with id=-2");
    assert_eq!(set_reply(SetOutcome::Failed("boom".to_string())), "ERR boom");
    assert_eq!(set_reply(SetOutcome::Done), "OK");
}

#[test]
fn text_decoding() {
    assert_eq!(decode_text(b"hello".to_vec()), Some("hello".to_string()));
    assert_eq!(decode_text("caf\u{e9}".as_bytes().to_vec()), Some("caf\u{e9}".to_string()));
    assert_eq!(decode_text(vec![0x63, 0x61, 0x66, 0xe9]), Some("caf\u{e9}".to_string()));
    assert_eq!(decode_text(vec![0xff, 0x41]), Some("\u{ff}A".to_string()));
    assert_eq!(decode_text(b"   \n".to_vec()), None);
    assert_eq!(decode_text(Vec::new()), None);
}

fn plan_view(v: &[Attempt]) -> Vec<(bool, &'static str, u32)> {
    v.iter()
        .map(|a| match a {
            Attempt::Text(x) => (true, "", *x),
            Attempt::Image(m, x) => (false, *m, *x),
        })
        .collect()
}

#[test]
fn grab_reads_offered_targets_first_text() {
    let texts = vec![1u32, 10, 11];
    let images = vec![("image/png", 20u32), ("image/jpeg", 30u32)];
    let plan = grab_plan(&vec![20, 10, 99], &texts, &images);
    assert_eq!(plan_view(&plan), vec![(true, "", 10), (false, "image/png", 20)]);
    assert_eq!(plan[0].timeout_ms(), 4000);
    assert_eq!(plan[1].timeout_ms(), 6000);
    let blind = grab_plan(&Vec::new(), &texts, &images);
    assert_eq!(
        plan_view(&blind),
        vec![(true, "", 1), (true, "", 10), (true, "", 11), (false, "image/png", 20), (false, "image/jpeg", 30)]
    );
    assert!(grab_plan(&vec![99], &texts, &images).is_empty());
}

#[test]
fn grab_steps() {
    assert!(grab_step(&Attempt::Text(1), None).is_none());
    assert!(grab_step(&Attempt::Text(1), Some(b"  ".to_vec())).is_none());
    match grab_step(&Attempt::Text(1), Some(b"hi".to_vec())) {
        Some(Grab::Text(s)) => assert_eq!(s, "hi"),
        _ => panic!("expected text"),
    }
    match grab_step(&Attempt::Image("image/png", 2), Some(vec![1, 2, 3])) {
        Some(g) => {
            assert!(g.has_content());
            match g {
                Grab::Image(d, m) => {
                    assert_eq!(d, vec![1, 2, 3]);
                    assert_eq!(m, "image/png");
                }
                _ => panic!("expected image"),
            }
        }
        None => panic!("expected image"),
    }
    assert!(!Grab::Empty.has_content());
}

fn entry(kind: &str, content: &str, path: Option<&str>, meta: Option<&str>) -> Entry {
    Entry {
        id: 1,
        content: content.to_string(),
        kind: kind.to_string(),
        path: path.map(|s| s.to_string()),
        meta: meta.map(|s| s.to_string()),
        ts_micros: 0,
        pinned: false,
        hits: 1,
        hash: None,
    }
}

#[test]
fn sources() {
    match clipboard_source(&entry("text", "hello", None, None)) {
        Ok(Source::Text(t)) => assert_eq!(t, "hello"),
        _ => panic!("expected text"),
    }
    match clipboard_source(&entry("image", "/d/a.gif", Some("/d/a.gif"), Some("image/gif|1x1 - 3 B"))) {
        Ok(Source::ImageFile(p, m)) => {
            assert_eq!(p, "/d/a.gif");
            assert_eq!(m, "image/gif");
        }
        _ => panic!("expected image"),
    }
    match clipboard_source(&entry("image", "x", None, None)) {
        Err(e) => assert_eq!(e, "image entry has no path"),
        _ => panic!("expected error"),
    }
}

#[test]
fn fallback_helpers() {
    assert!(matches!(fallback_tool(true, true, true), Ok(Tool::WlCopy)));
    assert!(matches!(fallback_tool(true, false, true), Ok(Tool::Xclip)));
    assert!(matches!(fallback_tool(false, true, true), Ok(Tool::Xclip)));
    match fallback_tool(true, false, false) {
        Err(e) => assert_eq!(e, "the daemon is not running; install wl-clipboard (wl-copy) for Wayland"),
        _ => panic!(),
    }
    match fallback_tool(false, true, false) {
        Err(e) => assert_eq!(e, "the daemon is not running and xclip is not installed"),
        _ => panic!(),
    }
}

#[test]
fn window_ids() {
    assert_eq!(window_id("12345\n"), Some("12345".to_string()));
    assert_eq!(window_id(""), None);
    assert_eq!(window_id("  \n"), None);
    assert_eq!(window_id("0x12"), None);
}

fn steps(v: &[PasteStep]) -> Vec<String> {
    v.iter()
        .map(|s| match s {
            PasteStep::Sleep(ms) => format!("sleep {}", ms),
            PasteStep::Run { program, args, stop_if_ok, quiet } => {
                format!("run {} {} {} {}", program, args.join(" "), stop_if_ok, quiet)
            }
            PasteStep::Warn(m) => format!("warn {}", m),
        })
        .collect()
}

#[test]
fn paste_on_x11() {
    assert_eq!(
        steps(&auto_paste(false, Some("42".to_string()), true, true, true)),
        vec![
            "run xdotool windowactivate --sync 42 false true".to_string(),
            "sleep 150".to_string(),
            "run xdotool key --clearmodifiers ctrl+v false false".to_string(),
        ]
    );
    assert_eq!(
        steps(&auto_paste(false, None, true, false, false)),
        vec!["sleep 150".to_string(), "run xdotool key --clearmodifiers ctrl+v false false".to_string()]
    );
    assert_eq!(
        steps(&auto_paste(false, None, false, true, true)),
        vec!["warn [cliphist-lite] xdotool missing, cannot auto-paste: sudo apt install xdotool".to_string()]
    );
}

#[test]
fn paste_on_wayland() {
    let all = steps(&auto_paste(true, Some("42".to_string()), true, true, true));
    assert_eq!(all.len(), 6);
    assert_eq!(all[0], "sleep 150");
    assert_eq!(all[1], "run ydotool key 29:1 47:1 47:0 29:0 true false");
    assert!(all[2].starts_with("warn [cliphist-lite] ydotool failed"));
    assert_eq!(all[3], "run wtype -M ctrl -k v -m ctrl true false");
    assert!(all[4].starts_with("warn [cliphist-lite] wtype failed"));
    assert_eq!(
        all[5],
        "warn [cliphist-lite] no Wayland auto-paste tool found. Install ydotool:\n  sudo apt install ydotool && sudo systemctl enable --now ydotool"
    );
    assert_eq!(steps(&auto_paste(true, None, false, false, false)).len(), 2);
}

#[test]
fn poller_pause_reads_nothing() {
    let mut p = Poller::new();
    assert!(!p.begin_tick(true));
    assert_eq!(p.tick(), 1);
    assert!(p.begin_tick(false));
    assert_eq!(p.tick(), 2);
    assert!(matches!(p.step(&tok(Some(b"x"), Some(1))), Step::Capture));
}

#[test]
fn helper_command_lines() {
    let (p, a) = cliphist::clip::helper_command(&Tool::Xclip, &Source::Text("hi".to_string()));
    assert_eq!(p, "xclip");
    assert_eq!(a, vec!["-selection", "clipboard", "-t", "UTF8_STRING", "-i"]);
    let (p, a) = cliphist::clip::helper_command(&Tool::WlCopy, &Source::Text("hi".to_string()));
    assert_eq!(p, "wl-copy");
    assert_eq!(a, vec!["--type", "text/plain;charset=utf-8"]);
    let (p, a) = cliphist::clip::helper_command(&Tool::WlCopy, &Source::ImageFile("/d/a.png".to_string(), "image/png".to_string()));
    assert_eq!((p.as_str(), a), ("wl-copy", vec!["--type".to_string(), "image/png".to_string()]));
}

#[test]
fn paused_daemon_skips_the_start_capture() {
    assert!(cliphist::daemon::capture_on_start(false));
    assert!(!cliphist::daemon::capture_on_start(true));
}

#[test]
fn set_request_outcomes() {
    assert!(cliphist::daemon::after_lookup(3, Ok(true)).is_none());
    assert_eq!(set_reply(cliphist::daemon::after_lookup(3, Ok(false)).unwrap()), "ERR no entry with id=3");
    assert_eq!(set_reply(cliphist::daemon::after_lookup(3, Err("db locked".to_string())).unwrap()), "ERR db locked");
    let mut p = Poller::new();
    p.record_capture(tok(Some(b"t"), Some(1)), true);
    assert!(p.begin_tick(false));
    assert_eq!(set_reply(cliphist::daemon::after_put(Err("storing image: x".to_string()), &mut p)), "ERR storing image: x");
    assert!(matches!(p.step(&tok(Some(b"t"), Some(1))), Step::Idle));
    assert_eq!(set_reply(cliphist::daemon::after_put(Ok(()), &mut p)), "OK");
    assert!(matches!(p.step(&tok(Some(b"t"), Some(1))), Step::Capture));
}
