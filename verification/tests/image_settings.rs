use cliphist::db::max_entries;
use cliphist::image::{ext_for, image_size};
use cliphist::paths::{
    autostart_path, config_dir, daemon_lock, data_dir, db_path, home, ignore_file, image_dir, join,
    pause_flag, pick_lock, settings_file, socket_path,
};
use cliphist::settings::{set_setting, setting, setting_bool, setting_usize};

fn png(w: u32, h: u32) -> Vec<u8> {
    let mut d = vec![0x89, b'P', b'N', b'G', 0x0d, 0x0a, 0x1a, 0x0a, 0, 0, 0, 13];
    d.extend_from_slice(b"IHDR");
    d.extend_from_slice(&w.to_be_bytes());
    d.extend_from_slice(&h.to_be_bytes());
    d.extend_from_slice(&[8, 6, 0, 0, 0]);
    d
}

#[test]
fn image_size_png() {
    assert_eq!(image_size(&png(1920, 1080)), Some((1920, 1080)));
    // exactly 24 bytes is too short for the PNG check
    assert_eq!(image_size(&png(1, 2)[..24]), None);
}

#[test]
fn image_size_gif() {
    let mut d = b"GIF89a".to_vec();
    d.extend_from_slice(&300u16.to_le_bytes());
    d.extend_from_slice(&200u16.to_le_bytes());
    d.push(0);
    assert_eq!(image_size(&d), Some((300, 200)));
    d[4] = b'7';
    assert_eq!(image_size(&d), Some((300, 200)));
    assert_eq!(image_size(&d[..10]), None);
}

#[test]
fn image_size_bmp() {
    let mut d = b"BM".to_vec();
    d.extend_from_slice(&[0u8; 16]);
    d.extend_from_slice(&640u32.to_le_bytes());
    d.extend_from_slice(&480u32.to_le_bytes());
    d.push(0);
    assert_eq!(image_size(&d), Some((640, 480)));
}

#[test]
fn image_size_jpeg() {
    let mut d = vec![0xff, 0xd8];
    // APP0 segment of 16 bytes
    d.extend_from_slice(&[0xff, 0xe0, 0x00, 0x10]);
    d.extend_from_slice(&[0u8; 14]);
    // DHT, skipped even though it is in the C0..CF range
    d.extend_from_slice(&[0xff, 0xc4, 0x00, 0x04, 0, 0]);
    // a stray byte, stepped over
    d.push(0x00);
    // SOF0: length, precision, height 600, width 800
    d.extend_from_slice(&[0xff, 0xc0, 0x00, 0x11, 0x08, 0x02, 0x58, 0x03, 0x20, 0x03, 0x01]);
    d.extend_from_slice(&[0u8; 8]);
    assert_eq!(image_size(&d), Some((800, 600)));
}

#[test]
fn image_size_unknown() {
    assert_eq!(image_size(b"hello world, not an image"), None);
    assert_eq!(image_size(&[]), None);
    assert_eq!(image_size(&[0xff, 0xd8, 0xff, 0xe0, 0x00]), None);
}

#[test]
fn extensions() {
    assert_eq!(ext_for("image/png"), "png");
    assert_eq!(ext_for("image/jpeg"), "jpg");
    assert_eq!(ext_for("image/bmp"), "bmp");
    assert_eq!(ext_for("image/gif"), "gif");
    assert_eq!(ext_for("image/webp"), "bin");
}

const CONF: &str = "# comment\nblur_close = off\ntheme=dark\n max_entries = 50 \nbogus line\n";

#[test]
fn settings_read() {
    assert_eq!(setting(CONF, "theme"), Some("dark".to_string()));
    assert_eq!(setting(CONF, "blur_close"), Some("off".to_string()));
    assert_eq!(setting(CONF, "max_entries"), Some("50".to_string()));
    assert_eq!(setting(CONF, "missing"), None);
    assert_eq!(setting(CONF, "# comment"), None);
    assert_eq!(setting("k=1\nk=2\n", "k"), Some("1".to_string()));
    assert_eq!(setting("k = a=b\n", "k"), Some("a=b".to_string()));
}

#[test]
fn settings_bool_and_number() {
    assert!(!setting_bool(CONF, "blur_close", true));
    assert!(setting_bool(CONF, "theme", true));
    assert!(!setting_bool(CONF, "missing", false));
    for (v, b) in [("1", true), ("true", true), ("on", true), ("yes", true), ("0", false), ("false", false), ("off", false), ("no", false)] {
        assert_eq!(setting_bool(&format!("x={}", v), "x", !b), b);
    }
    assert_eq!(setting_usize(CONF, "max_entries", 20), 50);
    assert_eq!(setting_usize("max_entries=0", "max_entries", 20), 20);
    assert_eq!(setting_usize("max_entries=abc", "max_entries", 20), 20);
    assert_eq!(setting_usize("max_entries=+7", "max_entries", 20), 7);
    assert_eq!(setting_usize("max_entries=-7", "max_entries", 20), 20);
}

#[test]
fn max_entries_setting() {
    assert_eq!(max_entries(CONF), 50);
    assert_eq!(max_entries(""), 20);
    assert_eq!(max_entries("max_entries=0\n"), 20);
}

#[test]
fn settings_write() {
    assert_eq!(set_setting("theme=light\nopacity=0.5\n", "theme", "dark"), "theme=dark\nopacity=0.5\n");
    assert_eq!(set_setting("", "blur_close", "true"), "blur_close=true\n");
    assert_eq!(set_setting("# c\n\nk=1", "k", "2"), "# c\n\nk=2\n");
    assert_eq!(set_setting("k=1\nk=3", "k", "2"), "k=2\nk=2\n");
    assert_eq!(set_setting("a=1\n", "b", "2"), "a=1\nb=2\n");
}

#[test]
fn settings_write_then_read() {
    let texts = ["", CONF, "theme = light\r\nopacity=0.5", "# only comments\n#theme=dark\n"];
    for t in texts {
        for (k, v) in [("theme", "dark"), ("blur_close", " off "), ("max_entries", "7")] {
            let after = set_setting(t, k, v);
            assert_eq!(setting(&after, k), Some(v.trim().to_string()));
            for other in ["theme", "blur_close", "max_entries", "opacity", "missing"] {
                if other != k {
                    assert_eq!(setting(&after, other), setting(t, other), "{:?} {} {}", t, k, other);
                }
            }
        }
    }
}

#[test]
fn paths_follow_xdg() {
    assert_eq!(home(Some("/home/u")), "/home/u");
    assert_eq!(home(None), "/root");
    assert_eq!(data_dir(None, "/home/u"), "/home/u/.local/share/cliphist-lite");
    assert_eq!(data_dir(Some("/x/data"), "/home/u"), "/x/data/cliphist-lite");
    assert_eq!(config_dir(None, "/home/u/"), "/home/u/.config/cliphist-lite");
    assert_eq!(config_dir(Some("/x/cfg"), "/home/u"), "/x/cfg/cliphist-lite");
    let d = "/home/u/.local/share/cliphist-lite";
    let c = "/home/u/.config/cliphist-lite";
    assert_eq!(db_path(d), format!("{}/history.db", d));
    assert_eq!(image_dir(d), format!("{}/images", d));
    assert_eq!(pause_flag(d), format!("{}/paused", d));
    assert_eq!(pick_lock(d), format!("{}/picker.lock", d));
    assert_eq!(daemon_lock(d), format!("{}/daemon.lock", d));
    assert_eq!(ignore_file(c), format!("{}/ignore.txt", c));
    assert_eq!(settings_file(c), format!("{}/settings.conf", c));
    assert_eq!(autostart_path("/home/u"), "/home/u/.config/autostart/cliphist-lite.desktop");
    assert_eq!(socket_path(Some("/run/user/1000"), 1000), "/run/user/1000/cliphist-lite.sock");
    assert_eq!(socket_path(None, 1000), "/tmp/cliphist-lite-1000.sock");
    assert_eq!(join("", "a"), "a");
    assert_eq!(join("/", "a"), "/a");
}

#[test]
fn max_entries_written_reads_back() {
    for t in ["", CONF, "max_entries=3\n# x\n", "max_entries = abc\r\n"] {
        for n in [1usize, 7, 20, 50, 123_456, usize::MAX] {
            let after = cliphist::db::set_max_entries(t, n);
            assert_eq!(max_entries(&after), n);
            assert_eq!(after, set_setting(t, "max_entries", &n.to_string()));
        }
    }
}
