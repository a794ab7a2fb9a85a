//! Where the application keeps its files. The caller reads the environment
//! (HOME, XDG_*) and hands the values in; these functions only build paths.
use vstd::prelude::*;
use crate::text::{chars_of, string_of, append_chars, chars_eq, split_chars, split_on, view_all};

verus! {

/// `base` joined with the relative path `rel`, as `Path::join` joins them:
/// a `/` goes between unless `base` is empty or already ends in one.
pub open spec fn join_path(base: Seq<char>, rel: Seq<char>) -> Seq<char> {
    if base.len() > 0 && base.last() != '/' {
        base + seq!['/'] + rel
    } else {
        base + rel
    }
}

/// `base` joined with the relative path `rel`.
pub fn join(base: &str, rel: &str) -> (r: String)
    ensures
        r@ == join_path(base@, rel@),
{
    let mut out = chars_of(base);
    let n: usize = out.len();
    if n > 0 && out[n - 1] != '/' {
        out.push('/');
    }
    let tail = chars_of(rel);
    append_chars(&mut out, &tail);
    string_of(&out)
}

/// The home directory: `$HOME`, or `/root` when unset.
pub fn home(env_home: Option<&str>) -> (r: String)
    ensures
        r@ == (match env_home {
            Some(h) => h@,
            None => "/root"@,
        }),
{
    match env_home {
        Some(h) => crate::text::string_of(&chars_of(h)),
        None => crate::text::string_of(&chars_of("/root")),
    }
}

/// `$XDG_DATA_HOME/cliphist-lite`, or `~/.local/share/cliphist-lite`.
pub fn data_dir(xdg_data_home: Option<&str>, home: &str) -> (r: String)
    ensures
        r@ == join_path(
            match xdg_data_home {
                Some(x) => x@,
                None => join_path(home@, ".local/share"@),
            },
            "cliphist-lite"@,
        ),
{
    let base = match xdg_data_home {
        Some(x) => string_of(&chars_of(x)),
        None => join(home, ".local/share"),
    };
    join(base.as_str(), crate::util::APP)
}

/// `$XDG_CONFIG_HOME/cliphist-lite`, or `~/.config/cliphist-lite`.
pub fn config_dir(xdg_config_home: Option<&str>, home: &str) -> (r: String)
    ensures
        r@ == join_path(
            match xdg_config_home {
                Some(x) => x@,
                None => join_path(home@, ".config"@),
            },
            "cliphist-lite"@,
        ),
{
    let base = match xdg_config_home {
        Some(x) => string_of(&chars_of(x)),
        None => join(home, ".config"),
    };
    join(base.as_str(), crate::util::APP)
}

/// The history database inside the data directory.
pub fn db_path(data_dir: &str) -> (r: String)
    ensures
        r@ == join_path(data_dir@, "history.db"@),
{
    join(data_dir, "history.db")
}

/// The directory holding stored images.
pub fn image_dir(data_dir: &str) -> (r: String)
    ensures
        r@ == join_path(data_dir@, "images"@),
{
    join(data_dir, "images")
}

/// The flag file whose presence pauses recording.
pub fn pause_flag(data_dir: &str) -> (r: String)
    ensures
        r@ == join_path(data_dir@, "paused"@),
{
    join(data_dir, "paused")
}

/// The file of ignore patterns.
pub fn ignore_file(config_dir: &str) -> (r: String)
    ensures
        r@ == join_path(config_dir@, "ignore.txt"@),
{
    join(config_dir, "ignore.txt")
}

/// The settings file.
pub fn settings_file(config_dir: &str) -> (r: String)
    ensures
        r@ == join_path(config_dir@, "settings.conf"@),
{
    join(config_dir, "settings.conf")
}

/// The lock file held while the picker panel is open.
pub fn pick_lock(data_dir: &str) -> (r: String)
    ensures
        r@ == join_path(data_dir@, "picker.lock"@),
{
    join(data_dir, "picker.lock")
}

/// The lock file held by the running daemon.
pub fn daemon_lock(data_dir: &str) -> (r: String)
    ensures
        r@ == join_path(data_dir@, "daemon.lock"@),
{
    join(data_dir, "daemon.lock")
}

/// The desktop file that starts the daemon at login.
pub fn autostart_path(home: &str) -> (r: String)
    ensures
        r@ == join_path(home@, ".config/autostart/cliphist-lite.desktop"@),
{
    join(home, ".config/autostart/cliphist-lite.desktop")
}

/// The daemon's socket: in `$XDG_RUNTIME_DIR`, else `/tmp/cliphist-lite-<uid>.sock`.
pub fn socket_path(xdg_runtime_dir: Option<&str>, uid: u32) -> (r: String)
    ensures
        r@ == (match xdg_runtime_dir {
            Some(d) => join_path(d@, "cliphist-lite.sock"@),
            None => "/tmp/cliphist-lite-"@ + crate::num::decimal(uid as nat) + ".sock"@,
        }),
{
    match xdg_runtime_dir {
        Some(d) => join(d, "cliphist-lite.sock"),
        None => {
            let mut out = chars_of("/tmp/cliphist-lite-");
            let digits = crate::num::u64_chars(uid as u64);
            append_chars(&mut out, &digits);
            let tail = chars_of(".sock");
            append_chars(&mut out, &tail);
            string_of(&out)
        },
    }
}

/// The pieces of `parts` that name something: neither empty nor ".".
pub open spec fn named_parts(parts: Seq<Seq<char>>) -> Seq<Seq<char>>
    decreases parts.len(),
{
    if parts.len() == 0 {
        seq![]
    } else {
        let prev = named_parts(parts.drop_last());
        let p = parts.last();
        if p.len() == 0 || p == seq!['.'] {
            prev
        } else {
            prev.push(p)
        }
    }
}

/// Whether path `s` starts at the root.
pub open spec fn is_rooted(s: Seq<char>) -> bool {
    s.len() > 0 && s[0] == '/'
}

/// The components of path `s`, as `Path::components` gives them on Unix:
/// the root ("/") when the path is absolute, a leading "." when a relative
/// path starts with one, then the named parts. Repeated and trailing
/// separators and inner "." parts do not count.
pub open spec fn path_components(s: Seq<char>) -> Seq<Seq<char>> {
    let parts = split_on(s, '/');
    let root: Seq<Seq<char>> = if is_rooted(s) { seq![seq!['/']] } else { seq![] };
    let lead: Seq<Seq<char>> = if !is_rooted(s) && parts[0] == seq!['.'] { seq![seq!['.']] } else { seq![] };
    root + lead + named_parts(parts)
}

/// Whether paths `a` and `b` name the same file as `Path`'s `==` sees it:
/// they have the same components.
pub open spec fn same_path(a: Seq<char>, b: Seq<char>) -> bool {
    path_components(a) == path_components(b)
}

fn is_dot(p: &Vec<char>) -> (b: bool)
    ensures
        b == (p@ == seq!['.']),
{
    let r = p.len() == 1 && p[0] == '.';
    if p.len() == 1 {
        assert(p@ == seq!['.'] <==> p@[0] == '.') by {
            if p@[0] == '.' {
                assert(p@ =~= seq!['.']);
            }
        }
    }
    r
}

/// The components of `path` (see `path_components`).
pub fn components(path: &str) -> (r: Vec<Vec<char>>)
    ensures
        view_all(r@) == path_components(path@),
{
    let pc = chars_of(path);
    let parts = split_chars(&pc, '/');
    let ghost pv = view_all(parts@);
    assert(pv.len() > 0);
    let rooted: bool = pc.len() > 0 && pc[0] == '/';
    let mut out: Vec<Vec<char>> = Vec::new();
    if rooted {
        let mut r: Vec<char> = Vec::new();
        r.push('/');
        out.push(r);
    } else if is_dot(&parts[0]) {
        let mut d: Vec<char> = Vec::new();
        d.push('.');
        out.push(d);
    }
    let ghost head = view_all(out@);
    assert(head == (if is_rooted(path@) { seq![seq!['/']] } else { Seq::<Seq<char>>::empty() }) + (if !is_rooted(path@)
        && pv[0] == seq!['.'] { seq![seq!['.']] } else { Seq::<Seq<char>>::empty() }));
    let mut i: usize = 0;
    while i < parts.len()
        invariant
            i <= parts@.len(),
            pv == view_all(parts@),
            view_all(out@) == head + named_parts(pv.take(i as int)),
        decreases parts@.len() - i,
    {
        assert(pv.take(i + 1).drop_last() =~= pv.take(i as int));
        assert(pv.take(i + 1).last() == parts@[i as int]@);
        let p = &parts[i];
        if p.len() > 0 && !is_dot(p) {
            let ghost before = view_all(out@);
            out.push(crate::settings::copy_chars(p));
            assert(view_all(out@) =~= before.push(p@));
            assert(head + named_parts(pv.take(i + 1)) =~= (head + named_parts(pv.take(i as int))).push(p@));
        }
        i = i + 1;
    }
    assert(pv.take(pv.len() as int) =~= pv);
    out
}

/// Whether two component lists are equal.
fn components_eq(a: &Vec<Vec<char>>, b: &Vec<Vec<char>>) -> (r: bool)
    ensures
        r == (view_all(a@) == view_all(b@)),
{
    if a.len() != b.len() {
        assert(view_all(a@).len() != view_all(b@).len());
        return false;
    }
    let mut i: usize = 0;
    while i < a.len()
        invariant
            i <= a@.len() == b@.len(),
            forall|k: int| 0 <= k < i ==> a@[k]@ == b@[k]@,
        decreases a@.len() - i,
    {
        if !chars_eq(&a[i], &b[i]) {
            assert(view_all(a@)[i as int] != view_all(b@)[i as int]);
            return false;
        }
        i = i + 1;
    }
    assert(view_all(a@) =~= view_all(b@));
    true
}

/// Whether `a` and `b` name the same file (see `same_path`).
pub fn same_file(a: &str, b: &str) -> (r: bool)
    ensures
        r == same_path(a@, b@),
{
    components_eq(&components(a), &components(b))
}

} // verus!
