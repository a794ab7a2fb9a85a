use cliphist::db::{missing_columns, orphan_files, Entry};
use cliphist::history::{fetch_order, trim_victims, upsert_targets, wipe_victims};
use cliphist::store::{admit_text, content_hash, image_record, load_ignore_rules, IgnoreRule};

fn text(id: i64, ts: i64, pinned: bool) -> Entry {
    Entry {
        id,
        content: format!("entry {}", id),
        kind: "text".to_string(),
        path: None,
        meta: None,
        ts_micros: ts,
        pinned,
        hits: 1,
        hash: Some(format!("h{}", id)),
    }
}

fn image(id: i64, path: &str, meta: Option<&str>) -> Entry {
    Entry {
        id,
        content: path.to_string(),
        kind: "image".to_string(),
        path: Some(path.to_string()),
        meta: meta.map(|m| m.to_string()),
        ts_micros: id,
        pinned: false,
        hits: 1,
        hash: None,
    }
}

fn ids(v: &[Entry]) -> Vec<i64> {
    v.iter().map(|e| e.id).collect()
}

#[test]
fn fetch_lists_pinned_then_newest() {
    let rows = vec![text(1, 10, false), text(2, 30, true), text(3, 20, false), text(4, 5, true), text(5, 40, false)];
    assert_eq!(ids(&fetch_order(rows.clone(), 300)), vec![2, 4, 5, 3, 1]);
    assert_eq!(ids(&fetch_order(rows.clone(), 2)), vec![2, 4]);
    assert_eq!(ids(&fetch_order(rows.clone(), 0)), Vec::<i64>::new());
    assert_eq!(ids(&fetch_order(rows, -1)), vec![2, 4, 5, 3, 1]);
}

#[test]
fn fetch_keeps_ties_in_row_order() {
    let rows = vec![text(7, 10, false), text(8, 10, false), text(9, 10, false)];
    assert_eq!(ids(&fetch_order(rows, 10)), vec![7, 8, 9]);
}

#[test]
fn trim_drops_oldest_unpinned() {
    let rows = vec![
        text(1, 1, false),
        text(2, 2, false),
        text(3, 3, false),
        text(4, 4, false),
        text(5, 5, false),
        text(6, 0, true),
    ];
    assert_eq!(trim_victims(&rows, 3), vec![1, 2]);
    assert_eq!(trim_victims(&rows, 5), Vec::<i64>::new());
    assert_eq!(trim_victims(&rows, 20), Vec::<i64>::new());
    assert_eq!(trim_victims(&rows, 1), vec![1, 2, 3, 4]);
}

#[test]
fn trim_never_touches_pinned() {
    let rows: Vec<Entry> = (0..30).map(|i| text(i, i, i % 3 == 0)).collect();
    let victims = trim_victims(&rows, 2);
    for v in &victims {
        assert!(!rows[*v as usize].pinned);
    }
    let kept_unpinned = rows.iter().filter(|e| !e.pinned && !victims.contains(&e.id)).count();
    assert_eq!(kept_unpinned, 2);
    assert_eq!(rows.iter().filter(|e| !e.pinned && !victims.contains(&e.id)).map(|e| e.id).collect::<Vec<_>>(), vec![28, 29]);
}

#[test]
fn trim_breaks_ties_by_row_order() {
    let rows = vec![text(1, 5, false), text(2, 5, false), text(3, 5, false)];
    assert_eq!(trim_victims(&rows, 2), vec![3]);
}

#[test]
fn wipe_keeps_pinned_unless_all() {
    let rows = vec![text(1, 1, false), text(2, 2, true), text(3, 3, false)];
    assert_eq!(wipe_victims(&rows, false), vec![1, 3]);
    assert_eq!(wipe_victims(&rows, true), vec![1, 2, 3]);
}

#[test]
fn upsert_bumps_same_hash() {
    let rows = vec![text(1, 1, false), text(2, 2, false)];
    assert_eq!(upsert_targets(&rows, "h2"), vec![2]);
    assert_eq!(upsert_targets(&rows, "h9"), Vec::<i64>::new());
}

#[test]
fn migration_adds_missing_columns() {
    let old: Vec<String> = ["id", "hash", "content", "ts", "pinned", "hits"].iter().map(|s| s.to_string()).collect();
    assert_eq!(missing_columns(&old), vec!["kind TEXT NOT NULL DEFAULT 'text'", "path TEXT", "meta TEXT"]);
    let oldest: Vec<String> = ["id", "content", "ts"].iter().map(|s| s.to_string()).collect();
    assert_eq!(
        missing_columns(&oldest),
        vec![
            "kind TEXT NOT NULL DEFAULT 'text'",
            "path TEXT",
            "meta TEXT",
            "hash TEXT",
            "hits INTEGER NOT NULL DEFAULT 1",
            "pinned INTEGER NOT NULL DEFAULT 0",
        ]
    );
    let full: Vec<String> = ["id", "hash", "content", "ts", "pinned", "hits", "kind", "path", "meta"].iter().map(|s| s.to_string()).collect();
    assert!(missing_columns(&full).is_empty());
}

#[test]
fn orphans_are_unreferenced_files() {
    let rows = vec![image(1, "/d/a.png", None), text(2, 2, false)];
    let files: Vec<String> = ["/d/a.png", "/d/b.png", "/d/c.jpg"].iter().map(|s| s.to_string()).collect();
    assert_eq!(orphan_files(&rows, &files), vec!["/d/b.png".to_string(), "/d/c.jpg".to_string()]);
    let mut t = text(3, 3, false);
    t.path = Some("/d/b.png".to_string());
    assert_eq!(orphan_files(&vec![t], &files).len(), 3);
}

#[test]
fn entry_meta() {
    let e = image(1, "/d/a.png", Some("image/jpeg|1920x1080 - 245.0 KB"));
    assert!(e.is_image());
    assert_eq!(e.mime(), "image/jpeg");
    assert_eq!(e.meta_text(), "1920x1080 - 245.0 KB");
    assert_eq!(e.label(100), "[image] 1920x1080 - 245.0 KB");
    let odd = image(2, "/d/b.png", Some("foo|bar|baz"));
    assert_eq!(odd.mime(), "image/png");
    assert_eq!(odd.meta_text(), "baz");
    let bare = image(3, "/d/c.png", Some("plain"));
    assert_eq!(bare.meta_text(), "plain");
    let none = image(4, "/d/d.png", None);
    assert_eq!(none.mime(), "image/png");
    assert_eq!(none.meta_text(), "");
    let t = text(5, 5, false);
    assert!(!t.is_image());
    assert_eq!(t.label(100), "entry 5");
    assert_eq!(t.label(3), "en\u{2026}");
}

#[test]
fn content_hash_is_hex_sha256() {
    assert_eq!(content_hash(b"abc"), "ba7816bf8f01cfea414140de5dae2223b00361a396177a9cb410ff61f20015ad");
    assert_eq!(content_hash(b""), "e3b0c44298fc1c149afbf4c8996fb92427ae41e4649b934ca495991b7852b855");
}

#[test]
fn ignore_rules_compile() {
    let r = IgnoreRule::compile("^ghp_[A-Za-z0-9]{4}$").ok().unwrap();
    assert_eq!(r.pattern(), "^ghp_[A-Za-z0-9]{4}$");
    assert!(r.is_match("ghp_ab12"));
    assert!(!r.is_match("ghp_ab1"));
    assert!(IgnoreRule::compile("(?=lookahead)").is_err());
    assert!(IgnoreRule::compile("[unclosed").is_err());
}

#[test]
fn ignore_file_is_read() {
    let rules = load_ignore_rules("# comment\n\n^sk-\n(?=bad)\n  token  \n#^x\n");
    let pats: Vec<String> = rules.rules.iter().map(|r| r.pattern()).collect();
    assert_eq!(pats, vec!["^sk-".to_string(), "token".to_string()]);
    assert_eq!(rules.rejected.len(), 1);
    assert_eq!(rules.rejected[0].0, "(?=bad)");
    assert!(!rules.rejected[0].1.to_string().is_empty());
}

#[test]
fn admitted_text() {
    let rules = load_ignore_rules("^sk-\n").rules;
    assert_eq!(admit_text("   \n\t", &rules), None);
    assert_eq!(admit_text("sk-12345", &rules), None);
    assert_eq!(admit_text("hello", &rules), Some(content_hash(b"hello")));
    assert_eq!(admit_text("hello", &Vec::new()), Some(content_hash(b"hello")));
    let big = "x".repeat(2_000_001);
    assert_eq!(admit_text(&big, &Vec::new()), None);
    let edge = "x".repeat(2_000_000);
    assert!(admit_text(&edge, &Vec::new()).is_some());
}

#[test]
fn image_rows() {
    assert!(image_record(&[], "image/png", "/d").is_none());
    let mut data = vec![0x89, b'P', b'N', b'G', 0x0d, 0x0a, 0x1a, 0x0a, 0, 0, 0, 13];
    data.extend_from_slice(b"IHDR");
    data.extend_from_slice(&1920u32.to_be_bytes());
    data.extend_from_slice(&1080u32.to_be_bytes());
    data.extend_from_slice(&[8, 6, 0, 0, 0]);
    let rec = image_record(&data, "image/png", "/d/images").unwrap();
    let h = content_hash(&data);
    assert_eq!(rec.hash, h);
    assert_eq!(rec.path, format!("/d/images/{}.png", &h[..20]));
    assert_eq!(rec.meta, "image/png|1920x1080 - 29 B");
    let rec2 = image_record(b"abc", "image/webp", "/d/").unwrap();
    assert_eq!(rec2.meta, "image/webp|image/webp - 3 B");
    assert_eq!(rec2.path, format!("/d/{}.bin", &content_hash(b"abc")[..20]));
    let too_big = vec![0u8; 20 * 1024 * 1024 + 1];
    assert!(image_record(&too_big, "image/png", "/d").is_none());
}

#[test]
fn orphans_compare_paths_by_component() {
    let rows = vec![image(1, "/d//images/x.png", None), image(2, "/d/images/y.png/", None)];
    let files: Vec<String> = ["/d/images/x.png", "/d/images/./y.png", "/d/images/z.png"].iter().map(|s| s.to_string()).collect();
    assert_eq!(orphan_files(&rows, &files), vec!["/d/images/z.png".to_string()]);
}

#[test]
fn same_file_agrees_with_path_equality() {
    let paths = [
        "", "/", "//", "a", "a/", "./a", "a/./b", "a/b", "a//b", "/a/b", "/a//b/", "/./a/b", ".", "./", "..", "../a",
        "a/../b", "a/b/.", "./././a", ".a", "a/.b", "/a/b/c", "a/b/c/",
    ];
    for a in paths {
        for b in paths {
            assert_eq!(cliphist::paths::same_file(a, b), std::path::Path::new(a) == std::path::Path::new(b), "{:?} {:?}", a, b);
        }
    }
}

#[test]
fn delete_removes_one_id() {
    let rows = vec![text(1, 1, false), text(2, 2, true), text(3, 3, false)];
    assert_eq!(ids(&cliphist::history::remove_id(rows.clone(), 2)), vec![1, 3]);
    assert_eq!(ids(&cliphist::history::remove_id(rows, 9)), vec![1, 2, 3]);
}

#[test]
fn repeated_copy_bumps_the_row() {
    let mut e = text(4, 10, true);
    e.hits = 3;
    let b = cliphist::history::bumped(&e, 99);
    assert_eq!((b.id, b.ts_micros, b.hits, b.pinned), (4, 99, 4, true));
    assert_eq!(b.content, e.content);
    assert_eq!(b.hash, e.hash);
}
