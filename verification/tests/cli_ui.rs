use cliphist::cli::{
    blur_close, daemon_interval, desktop_entry, flag_value, has_flag, id_arg, list_limit, list_line, plan_set,
    positional, put, SetPlan,
};
use cliphist::clip::Tool;
use cliphist::db::Entry;
use cliphist::doctor::{doctor_tools, in_group, report_line, ydotool_socket};
use cliphist::hotkey::{
    binding_value, command_value, first_slot, format_custom_list, has_slot, keybinding_path, mentions_cliphist,
    next_slot, parse_custom_list, slot_name, with_slot, SlotStep,
};
use cliphist::ui::{
    footer_text, move_selection, on_key, panel_fits_check, panel_plan, panel_position, retry_grab, row_title,
    shown_indices, KeyAction, NamedKey,
};

fn args(v: &[&str]) -> Vec<String> {
    v.iter().map(|s| s.to_string()).collect()
}

#[test]
fn flags() {
    let a = args(&["--interval", "200", "-x", "12"]);
    assert_eq!(flag_value(&a, "--interval"), Some("200".to_string()));
    assert_eq!(flag_value(&a, "12"), None);
    assert_eq!(flag_value(&a, "--missing"), None);
    assert!(has_flag(&a, "-x"));
    assert!(!has_flag(&a, "--stay"));
    assert_eq!(positional(&a), Some("200".to_string()));
    assert_eq!(positional(&args(&["-a", "--b"])), None);
}

#[test]
fn command_numbers() {
    assert_eq!(daemon_interval(&args(&[])), 400);
    assert_eq!(daemon_interval(&args(&["-i", "250"])), 250);
    assert_eq!(daemon_interval(&args(&["--interval", "100", "-i", "250"])), 100);
    assert_eq!(daemon_interval(&args(&["--interval", "abc"])), 400);
    assert_eq!(daemon_interval(&args(&["--interval", "abc", "-i", "7"])), 400);
    assert_eq!(list_limit(&args(&["-n", "5"])), 5);
    assert_eq!(list_limit(&args(&["--number", "-1"])), -1);
    assert_eq!(list_limit(&args(&[])), 25);
    assert_eq!(id_arg(&args(&["12"])), Some(12));
    assert_eq!(id_arg(&args(&["--x", "-3"])), None);
    assert_eq!(id_arg(&args(&["abc"])), None);
}

#[test]
fn blur_close_choice() {
    assert!(!blur_close(&args(&["--stay"]), "blur_close=on"));
    assert!(!blur_close(&args(&["--no-blur-close"]), ""));
    assert!(!blur_close(&args(&["--paste"]), "blur_close=off"));
    assert!(blur_close(&args(&[]), ""));
    assert!(blur_close(&args(&[]), "blur_close=maybe"));
}

#[test]
fn set_plans() {
    assert!(matches!(plan_set(&args(&["blur-close", "on"])), SetPlan::BlurClose(true)));
    assert!(matches!(plan_set(&args(&["blur-close", "off"])), SetPlan::BlurClose(false)));
    assert!(matches!(plan_set(&args(&["theme", "dark"])), SetPlan::Theme(v) if v == "dark"));
    assert!(matches!(plan_set(&args(&["theme", "blue"])), SetPlan::BadTheme(v) if v == "blue"));
    assert!(matches!(plan_set(&args(&["theme"])), SetPlan::BadTheme(v) if v.is_empty()));
    assert!(matches!(plan_set(&args(&["opacity", "0.5"])), SetPlan::Opacity(v) if v == "0.5"));
    assert!(matches!(plan_set(&args(&["max-entries", "50"])), SetPlan::MaxEntries(50)));
    assert!(matches!(plan_set(&args(&["max-entries", "0"])), SetPlan::BadMaxEntries));
    assert!(matches!(plan_set(&args(&["max-entries", "x"])), SetPlan::BadMaxEntries));
    assert!(matches!(plan_set(&args(&["blur-close", "maybe"])), SetPlan::BadBlurClose(v) if v == "maybe"));
    assert!(matches!(plan_set(&args(&[])), SetPlan::Usage));
    assert!(matches!(plan_set(&args(&["foo", "bar"])), SetPlan::Usage));
}

#[test]
fn list_lines() {
    assert_eq!(list_line(12, true, "5m", "hello"), "   12 \u{2605}   5m  hello");
    assert_eq!(list_line(123456, false, "10d", "x"), "123456    10d  x");
    assert_eq!(list_line(-1, false, "12345", ""), "   -1   12345  ");
}

#[test]
fn autostart_file() {
    assert_eq!(
        desktop_entry("/usr/bin/cliphist"),
        "[Desktop Entry]\nType=Application\nName=Clipboard History Daemon\nExec=/usr/bin/cliphist daemon\nX-GNOME-Autostart-enabled=true\nNoDisplay=true\n"
    );
}

#[test]
fn put_routes() {
    assert!(matches!(put(Ok(()), false, false, false), Ok(None)));
    assert!(matches!(put(Err("ERR x".to_string()), false, false, true), Ok(Some(Tool::Xclip))));
    assert!(matches!(put(Err("ERR x".to_string()), true, true, false), Ok(Some(Tool::WlCopy))));
    match put(Err("gone".to_string()), false, false, false) {
        Err(e) => assert_eq!(e, "the daemon is not running and xclip is not installed"),
        _ => panic!("expected an error"),
    }
}

fn entry(id: i64, kind: &str, content: &str, meta: Option<&str>) -> Entry {
    Entry {
        id,
        content: content.to_string(),
        kind: kind.to_string(),
        path: if kind == "image" { Some("/d/x.png".to_string()) } else { None },
        meta: meta.map(|s| s.to_string()),
        ts_micros: id,
        pinned: false,
        hits: 1,
        hash: None,
    }
}

#[test]
fn search_filters() {
    let es = vec![
        entry(1, "text", "Hello World", None),
        entry(2, "text", "hello there", None),
        entry(3, "image", "/d/x.png", Some("image/png|1920x1080 - 1.0 KB")),
        entry(4, "text", "WORLD hello again", None),
    ];
    assert_eq!(shown_indices(&es, ""), vec![0, 1, 2, 3]);
    assert_eq!(shown_indices(&es, "HeLLo  wor"), vec![0, 3]);
    assert_eq!(shown_indices(&es, "1920x1080"), vec![2]);
    assert_eq!(shown_indices(&es, "[IMAGE]"), vec![2]);
    assert_eq!(shown_indices(&es, "zzz"), Vec::<usize>::new());
    let many: Vec<Entry> = (0..100).map(|i| entry(i, "text", "same", None)).collect();
    let shown = shown_indices(&many, "same");
    assert_eq!(shown.len(), 80);
    assert_eq!(shown[79], 79);
}

#[test]
fn footer() {
    assert_eq!(
        footer_text(3, 10),
        "3/10 items  \u{2022}  \u{23ce} copy  \u{2022}  \u{2325}1-9 quick pick  \u{2022}  \u{2303}P pin  \u{2022}  \u{2326} delete  \u{2022}  esc close"
    );
}

#[test]
fn row_titles() {
    assert_eq!(row_title(&entry(1, "image", "", Some("image/png|1920x1080 - 245.0 KB"))), "Image 1920x1080");
    assert_eq!(row_title(&entry(1, "image", "", None)), "Image");
    assert_eq!(row_title(&entry(1, "image", "", Some("image/png| - 3 B"))), "Image");
    assert_eq!(row_title(&entry(1, "text", "  a\n b  ", None)), "a b");
    assert_eq!(row_title(&entry(1, "text", " \n\t", None)), "(empty)");
    let long = "word ".repeat(100);
    let t = row_title(&entry(1, "text", &long, None));
    assert_eq!(t.chars().count(), 220);
    assert!(t.ends_with('\u{2026}'));
}

#[test]
fn keys() {
    assert!(matches!(on_key(NamedKey::Other, Some('3'), false, true, 5), KeyAction::QuickPick(2)));
    assert!(matches!(on_key(NamedKey::Other, Some('1'), false, true, 1), KeyAction::QuickPick(0)));
    assert!(matches!(on_key(NamedKey::Other, Some('9'), false, true, 3), KeyAction::Swallow));
    assert!(matches!(on_key(NamedKey::Other, Some('0'), false, true, 3), KeyAction::Pass));
    assert!(matches!(on_key(NamedKey::Escape, None, false, false, 3), KeyAction::Close));
    assert!(matches!(on_key(NamedKey::Return, None, false, false, 3), KeyAction::Accept));
    assert!(matches!(on_key(NamedKey::KpEnter, None, false, false, 3), KeyAction::Accept));
    assert!(matches!(on_key(NamedKey::Down, None, false, false, 3), KeyAction::Move(1)));
    assert!(matches!(on_key(NamedKey::Up, None, false, false, 3), KeyAction::Move(-1)));
    assert!(matches!(on_key(NamedKey::PageDown, None, false, false, 3), KeyAction::Move(5)));
    assert!(matches!(on_key(NamedKey::PageUp, None, false, false, 3), KeyAction::Move(-5)));
    assert!(matches!(on_key(NamedKey::Delete, None, false, false, 3), KeyAction::DeleteSelected));
    assert!(matches!(on_key(NamedKey::P, Some('p'), true, false, 3), KeyAction::TogglePin));
    assert!(matches!(on_key(NamedKey::P, Some('p'), false, false, 3), KeyAction::Pass));
}

#[test]
fn selection_moves() {
    assert_eq!(move_selection(0, -1, 5), Some(0));
    assert_eq!(move_selection(3, 5, 5), Some(4));
    assert_eq!(move_selection(2, 1, 5), Some(3));
    assert_eq!(move_selection(0, 1, 0), None);
}

#[test]
fn panel_placement() {
    assert_eq!(panel_position(1000, 500, Some((0, 0, 1920, 1080))), (765, 460));
    assert_eq!(panel_position(10, 10, Some((0, 0, 1920, 1080))), (8, 8));
    assert_eq!(panel_position(1915, 1075, Some((0, 0, 1920, 1080))), (1442, 512));
    assert_eq!(panel_position(2000, 500, Some((1920, 0, 1920, 1080))), (1928, 460));
    assert_eq!(panel_position(1000, 500, None), (765, 460));
}

#[test]
fn custom_list_parsing() {
    assert!(parse_custom_list("@as []").is_empty());
    assert!(parse_custom_list("").is_empty());
    assert_eq!(parse_custom_list("['custom0', 'custom1']"), args(&["custom0", "custom1"]));
    assert_eq!(parse_custom_list("['custom0','custom3',]"), args(&["custom0", "custom3"]));
    assert_eq!(format_custom_list(&args(&["custom0", "custom1"])), "['custom0', 'custom1']");
    assert_eq!(format_custom_list(&args(&[])), "[]");
}

#[test]
fn custom_list_roundtrip() {
    for slots in [vec![], vec!["custom0"], vec!["custom0", "custom12", "my slot"]] {
        let v = args(&slots);
        assert_eq!(parse_custom_list(&format_custom_list(&v)), v);
    }
}

#[test]
fn slot_search() {
    let existing = args(&["custom0", "custom1"]);
    assert_eq!(slot_name(3), "custom3");
    assert!(has_slot(&existing, "custom1"));
    assert!(!has_slot(&existing, "custom2"));
    assert!(matches!(first_slot(&existing), SlotStep::Inspect(0)));
    assert!(matches!(first_slot(&args(&[])), SlotStep::Take(0)));
    assert!(matches!(next_slot(&existing, 0, "'/usr/bin/cliphist pick --paste'"), SlotStep::Take(0)));
    assert!(matches!(next_slot(&existing, 0, "'gnome-terminal'"), SlotStep::Inspect(1)));
    assert!(matches!(next_slot(&existing, 1, "'firefox'"), SlotStep::Take(2)));
    assert!(mentions_cliphist("x cliphist y"));
    assert!(!mentions_cliphist("clip hist"));
    assert_eq!(with_slot(existing.clone(), "custom1".to_string()), existing);
    assert_eq!(with_slot(existing.clone(), "custom2".to_string()), args(&["custom0", "custom1", "custom2"]));
}

#[test]
fn keybinding_values() {
    assert_eq!(keybinding_path("custom0"), "/org/cinnamon/desktop/keybindings/custom-keybindings/custom0/");
    assert_eq!(command_value("/usr/bin/cliphist"), "'/usr/bin/cliphist pick --paste'");
    assert_eq!(binding_value("<Super>v"), "['<Super>v']");
}

#[test]
fn doctor_checks() {
    assert_eq!(doctor_tools(true), vec!["ydotool", "wl-copy", "gsettings"]);
    assert_eq!(doctor_tools(false), vec!["xdotool", "xclip", "gsettings"]);
    assert!(in_group("user adm input sudo\n", "input"));
    assert!(!in_group("user adm inputs", "input"));
    assert!(!in_group("", "input"));
    assert_eq!(ydotool_socket(Some("/s"), Some("/run/user/1")), "/s");
    assert_eq!(ydotool_socket(None, Some("/run/user/1")), "/run/user/1/.ydotool_socket");
    assert_eq!(ydotool_socket(None, None), "/tmp/.ydotool_socket");
    assert_eq!(report_line("xclip", "MISSING"), "xclip          = MISSING");
    assert_eq!(report_line("a-very-long-name", "x"), "a-very-long-name = x");
}

#[test]
fn panel_behaviour() {
    let p = panel_plan(true, false, true);
    assert_eq!((p.margin, p.square, p.close_on_focus_out, p.grab, p.idle_close_secs), (14, false, true, true, Some(120)));
    let p = panel_plan(true, true, false);
    assert_eq!((p.margin, p.square, p.close_on_focus_out, p.grab, p.idle_close_secs), (0, true, true, false, Some(120)));
    let p = panel_plan(false, false, true);
    assert_eq!((p.close_on_focus_out, p.grab, p.idle_close_secs), (false, false, None));
    assert!(retry_grab(0));
    assert!(retry_grab(9));
    assert!(!retry_grab(10));
}

#[test]
fn panel_fit_check() {
    assert!(panel_fits_check(1000, 500, Some((0, 0, 1920, 1080))));
    assert!(panel_fits_check(1000, 500, None));
    assert!(!panel_fits_check(100, 100, Some((0, 0, 400, 300))));
    assert!(!panel_fits_check(i32::MIN, 0, None));
    assert!(!panel_fits_check(0, 0, Some((i32::MAX, 0, 10, 1080))));
}
