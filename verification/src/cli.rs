//! The command line: flags and arguments, what `cliphist set` does with its
//! arguments, the lines `cliphist list` prints, and the texts `cliphist
//! install` writes. Running the commands is the caller's part.
use vstd::prelude::*;
use crate::text::{chars_of, string_of, str_eq, append_chars, starts_with};
use crate::clip::{Tool, fallback_tool, fallback_tool_spec};
use crate::num::{parse_unsigned, parse_signed, decimal, signed_decimal};

verus! {

/// The views of command-line arguments.
pub open spec fn arg_views(args: Seq<String>) -> Seq<Seq<char>> {
    Seq::new(args.len(), |i: int| args[i]@)
}

/// Index of the first argument equal to `name`, or the number of arguments.
pub open spec fn find_arg(args: Seq<Seq<char>>, name: Seq<char>) -> int
    decreases args.len(),
{
    if args.len() == 0 {
        0
    } else if args[0] == name {
        0
    } else {
        1 + find_arg(args.drop_first(), name)
    }
}

proof fn lemma_find_arg(args: Seq<Seq<char>>, name: Seq<char>, k: int)
    requires
        0 <= k <= args.len(),
        forall|m: int| 0 <= m < k ==> #[trigger] args[m] != name,
        k == args.len() || args[k] == name,
    ensures
        find_arg(args, name) == k,
    decreases k,
{
    if k > 0 {
        lemma_find_arg(args.drop_first(), name, k - 1);
    }
}

/// The value following the first `name` among `args`, if there is one.
pub open spec fn flag_value_spec(args: Seq<Seq<char>>, name: Seq<char>) -> Option<Seq<char>> {
    let i = find_arg(args, name);
    if i + 1 < args.len() {
        Some(args[i + 1])
    } else {
        None
    }
}

fn find_arg_exec(args: &[String], name: &str) -> (r: usize)
    ensures
        r == find_arg(arg_views(args@), name@),
        r <= args@.len(),
        r < args@.len() ==> arg_views(args@)[r as int] == name@,
        forall|m: int| 0 <= m < r ==> #[trigger] arg_views(args@)[m] != name@,
{
    let mut i: usize = 0;
    while i < args.len() && !str_eq(args[i].as_str(), name)
        invariant
            i <= args@.len(),
            forall|m: int| 0 <= m < i ==> #[trigger] arg_views(args@)[m] != name@,
        decreases args@.len() - i,
    {
        i = i + 1;
    }
    proof {
        lemma_find_arg(arg_views(args@), name@, i as int);
    }
    i
}

/// The argument after the first `name`.
pub fn flag_value(args: &[String], name: &str) -> (r: Option<String>)
    ensures
        match r {
            Some(v) => flag_value_spec(arg_views(args@), name@) == Some(v@),
            None => flag_value_spec(arg_views(args@), name@) is None,
        },
{
    let i: usize = find_arg_exec(args, name);
    if i < args.len() && i + 1 < args.len() {
        Some(args[i + 1].clone())
    } else {
        None
    }
}

/// Whether `name` is among `args`.
pub fn has_flag(args: &[String], name: &str) -> (b: bool)
    ensures
        b == arg_views(args@).contains(name@),
{
    let i: usize = find_arg_exec(args, name);
    i < args.len()
}

proof fn lemma_find_arg_first(args: Seq<Seq<char>>, name: Seq<char>, m: int)
    requires
        0 <= m < args.len(),
        args[m] == name,
    ensures
        find_arg(args, name) <= m,
    decreases m,
{
    if m > 0 && args[0] != name {
        lemma_find_arg_first(args.drop_first(), name, m - 1);
    }
}

/// Index of the first argument not starting with `-`, or the count.
pub open spec fn find_positional(args: Seq<Seq<char>>) -> int
    decreases args.len(),
{
    if args.len() == 0 {
        0
    } else if !(args[0].len() > 0 && args[0][0] == '-') {
        0
    } else {
        1 + find_positional(args.drop_first())
    }
}

proof fn lemma_find_positional(args: Seq<Seq<char>>, k: int)
    requires
        0 <= k <= args.len(),
        forall|m: int| 0 <= m < k ==> (#[trigger] args[m]).len() > 0 && args[m][0] == '-',
        k == args.len() || !(args[k].len() > 0 && args[k][0] == '-'),
    ensures
        find_positional(args) == k,
    decreases k,
{
    if k > 0 {
        lemma_find_positional(args.drop_first(), k - 1);
    }
}

/// The first argument that is not a flag.
pub open spec fn positional_spec(args: Seq<Seq<char>>) -> Option<Seq<char>> {
    let i = find_positional(args);
    if i < args.len() {
        Some(args[i])
    } else {
        None
    }
}

pub fn positional(args: &[String]) -> (r: Option<String>)
    ensures
        match r {
            Some(v) => positional_spec(arg_views(args@)) == Some(v@),
            None => positional_spec(arg_views(args@)) is None,
        },
{
    let mut i: usize = 0;
    while i < args.len()
        invariant
            i <= args@.len(),
            forall|m: int| 0 <= m < i ==> (#[trigger] arg_views(args@)[m]).len() > 0 && arg_views(args@)[m][0] == '-',
        decreases args@.len() - i,
    {
        let c = chars_of(args[i].as_str());
        if !(c.len() > 0 && c[0] == '-') {
            proof {
                lemma_find_positional(arg_views(args@), i as int);
            }
            return Some(args[i].clone());
        }
        i = i + 1;
    }
    proof {
        lemma_find_positional(arg_views(args@), i as int);
    }
    None
}

/// `flag_value(args, a)`, falling back to `flag_value(args, b)`.
pub open spec fn either_flag(args: Seq<Seq<char>>, a: Seq<char>, b: Seq<char>) -> Option<Seq<char>> {
    match flag_value_spec(args, a) {
        Some(v) => Some(v),
        None => flag_value_spec(args, b),
    }
}

/// The poll interval of `cliphist daemon`: `--interval MS` or `-i MS`,
/// else 400.
pub open spec fn interval_spec(args: Seq<Seq<char>>) -> u64 {
    match either_flag(args, "--interval"@, "-i"@) {
        Some(v) => match parse_unsigned(v, u64::MAX as nat) {
            Some(n) => n as u64,
            None => crate::daemon::DEFAULT_INTERVAL_MS,
        },
        None => crate::daemon::DEFAULT_INTERVAL_MS,
    }
}

pub fn daemon_interval(args: &[String]) -> (ms: u64)
    ensures
        ms == interval_spec(arg_views(args@)),
{
    let v = match flag_value(args, "--interval") {
        Some(v) => Some(v),
        None => flag_value(args, "-i"),
    };
    match v {
        Some(v) => match crate::num::parse_u64(v.as_str()) {
            Some(n) => n,
            None => crate::daemon::DEFAULT_INTERVAL_MS,
        },
        None => crate::daemon::DEFAULT_INTERVAL_MS,
    }
}

/// How many entries `cliphist list` prints: `-n N` or `--number N`, else 25.
pub open spec fn list_limit_spec(args: Seq<Seq<char>>) -> i64 {
    match either_flag(args, "-n"@, "--number"@) {
        Some(v) => match parse_signed(v, i64::MAX as nat) {
            Some(n) => n as i64,
            None => 25,
        },
        None => 25,
    }
}

pub fn list_limit(args: &[String]) -> (n: i64)
    ensures
        n == list_limit_spec(arg_views(args@)),
{
    let v = match flag_value(args, "-n") {
        Some(v) => Some(v),
        None => flag_value(args, "--number"),
    };
    match v {
        Some(v) => match crate::num::parse_i64(v.as_str()) {
            Some(n) => n,
            None => 25,
        },
        None => 25,
    }
}

/// The entry id given to `cliphist get` / `copy`: the first non-flag
/// argument, read as an integer.
pub open spec fn id_arg_spec(args: Seq<Seq<char>>) -> Option<i64> {
    match positional_spec(args) {
        Some(v) => match parse_signed(v, i64::MAX as nat) {
            Some(n) => Some(n as i64),
            None => None,
        },
        None => None,
    }
}

pub fn id_arg(args: &[String]) -> (r: Option<i64>)
    ensures
        r == id_arg_spec(arg_views(args@)),
{
    match positional(args) {
        Some(v) => crate::num::parse_i64(v.as_str()),
        None => None,
    }
}

/// Whether clicking outside closes the panel: never with `--stay` or
/// `--no-blur-close`, else the `blur_close` setting (default on).
pub fn blur_close(args: &[String], settings_text: &str) -> (b: bool)
    ensures
        b == (if arg_views(args@).contains("--stay"@) || arg_views(args@).contains(
            "--no-blur-close"@,
        ) {
            false
        } else {
            crate::settings::setting_bool_spec(settings_text@, "blur_close"@, true)
        }),
{
    if has_flag(args, "--stay") || has_flag(args, "--no-blur-close") {
        false
    } else {
        crate::settings::setting_bool(settings_text, "blur_close", true)
    }
}

/// What `cliphist set KEY VALUE` does.
pub enum SetPlan {
    /// Write blur_close (on or off).
    BlurClose(bool),
    /// Write the theme (light or dark).
    Theme(String),
    /// Check the opacity value and write it (the value is a float: the caller
    /// reads it).
    Opacity(String),
    /// Write max_entries and trim the history to it.
    MaxEntries(usize),
    /// blur-close with a value other than on/off.
    BadBlurClose(String),
    /// theme with a value other than light/dark.
    BadTheme(String),
    /// max-entries with something other than a positive integer.
    BadMaxEntries,
    /// Unknown key: print the usage.
    Usage,
}

/// A plan as plain values: (variant number, text, number).
pub open spec fn plan_view(p: SetPlan) -> (int, Seq<char>, nat) {
    match p {
        SetPlan::BlurClose(on) => (0, seq![], if on { 1 } else { 0 }),
        SetPlan::Theme(v) => (1, v@, 0),
        SetPlan::Opacity(v) => (2, v@, 0),
        SetPlan::MaxEntries(n) => (3, seq![], n as nat),
        SetPlan::BadBlurClose(v) => (4, v@, 0),
        SetPlan::BadTheme(v) => (5, v@, 0),
        SetPlan::BadMaxEntries => (6, seq![], 0),
        SetPlan::Usage => (7, seq![], 0),
    }
}

/// The plan for key `key` and value `val` (empty when missing).
pub open spec fn plan_set_spec(key: Seq<char>, val: Seq<char>) -> (int, Seq<char>, nat) {
    if key == "blur-close"@ && (val == "on"@ || val == "off"@) {
        (0, seq![], if val == "on"@ { 1 } else { 0 })
    } else if key == "theme"@ && (val == "light"@ || val == "dark"@) {
        (1, val, 0)
    } else if key == "theme"@ {
        (5, val, 0)
    } else if key == "opacity"@ {
        (2, val, 0)
    } else if key == "max-entries"@ {
        match parse_unsigned(val, usize::MAX as nat) {
            Some(n) => if n > 0 {
                (3, seq![], n)
            } else {
                (6, seq![], 0)
            },
            None => (6, seq![], 0),
        }
    } else if key == "blur-close"@ {
        (4, val, 0)
    } else {
        (7, seq![], 0)
    }
}

/// Decides what `cliphist set` does with its arguments.
pub fn plan_set(args: &[String]) -> (p: SetPlan)
    ensures
        plan_view(p) == plan_set_spec(
            if args@.len() > 0 { args@[0]@ } else { seq![] },
            if args@.len() > 1 { args@[1]@ } else { seq![] },
        ),
{
    let key = if args.len() > 0 { args[0].clone() } else { string_of(&Vec::new()) };
    let val = if args.len() > 1 { args[1].clone() } else { string_of(&Vec::new()) };
    let k = key.as_str();
    let v = val.as_str();
    if str_eq(k, "blur-close") && (str_eq(v, "on") || str_eq(v, "off")) {
        SetPlan::BlurClose(str_eq(v, "on"))
    } else if str_eq(k, "theme") && (str_eq(v, "light") || str_eq(v, "dark")) {
        SetPlan::Theme(val)
    } else if str_eq(k, "theme") {
        SetPlan::BadTheme(val)
    } else if str_eq(k, "opacity") {
        SetPlan::Opacity(val)
    } else if str_eq(k, "max-entries") {
        match crate::num::parse_usize(v) {
            Some(n) => if n > 0 {
                SetPlan::MaxEntries(n)
            } else {
                SetPlan::BadMaxEntries
            },
            None => SetPlan::BadMaxEntries,
        }
    } else if str_eq(k, "blur-close") {
        SetPlan::BadBlurClose(val)
    } else {
        SetPlan::Usage
    }
}

/// `s` right-aligned in `width` characters (as `{:>width}` pads it).
pub open spec fn pad_left(s: Seq<char>, width: nat) -> Seq<char> {
    if s.len() >= width {
        s
    } else {
        Seq::new((width - s.len()) as nat, |i: int| ' ') + s
    }
}

fn pad_left_exec(s: &Vec<char>, width: usize) -> (r: Vec<char>)
    ensures
        r@ == pad_left(s@, width as nat),
{
    let mut out: Vec<char> = Vec::new();
    if s.len() < width {
        let pad: usize = width - s.len();
        let mut k: usize = 0;
        while k < pad
            invariant
                k <= pad,
                out@ == Seq::new(k as nat, |i: int| ' '),
            decreases pad - k,
        {
            out.push(' ');
            assert(out@ =~= Seq::new((k + 1) as nat, |i: int| ' '));
            k = k + 1;
        }
    }
    append_chars(&mut out, s);
    assert(s@.len() >= width ==> out@ =~= s@);
    out
}

/// One line of `cliphist list`: id, a star for pinned entries, age, label.
pub open spec fn list_line_spec(id: i64, pinned: bool, age: Seq<char>, label: Seq<char>) -> Seq<char> {
    pad_left(signed_decimal(id as int), 5) + seq![' ', if pinned { '\u{2605}' } else { ' ' }, ' ']
        + pad_left(age, 4) + seq![' ', ' '] + label
}

pub fn list_line(id: i64, pinned: bool, age: &str, label: &str) -> (r: String)
    ensures
        r@ == list_line_spec(id, pinned, age@, label@),
{
    let mut out = pad_left_exec(&crate::num::i64_chars(id), 5);
    out.push(' ');
    out.push(if pinned { '\u{2605}' } else { ' ' });
    out.push(' ');
    append_chars(&mut out, &pad_left_exec(&chars_of(age), 4));
    out.push(' ');
    out.push(' ');
    append_chars(&mut out, &chars_of(label));
    string_of(&out)
}

/// The autostart desktop file that starts the daemon at login.
pub open spec fn desktop_entry_spec(exe: Seq<char>) -> Seq<char> {
    "[Desktop Entry]\nType=Application\nName=Clipboard History Daemon\nExec="@ + exe
        + " daemon\nX-GNOME-Autostart-enabled=true\nNoDisplay=true\n"@
}

pub fn desktop_entry(exe: &str) -> (r: String)
    ensures
        r@ == desktop_entry_spec(exe@),
{
    let mut out = chars_of("[Desktop Entry]\nType=Application\nName=Clipboard History Daemon\nExec=");
    append_chars(&mut out, &chars_of(exe));
    append_chars(&mut out, &chars_of(" daemon\nX-GNOME-Autostart-enabled=true\nNoDisplay=true\n"));
    string_of(&out)
}

/// How an entry reaches the clipboard, given the daemon's answer to the
/// request: `Ok(None)` when the daemon took it, `Ok(Some(tool))` when it did
/// not and `tool` must hold the selection instead, `Err` when no helper can.
pub fn put(daemon: Result<(), String>, wayland: bool, have_wl_copy: bool, have_xclip: bool) -> (r: Result<Option<Tool>, String>)
    ensures
        daemon is Ok ==> r matches Ok(None),
        daemon is Err ==> match fallback_tool_spec(wayland, have_wl_copy, have_xclip) {
            Ok(t) => r == Ok::<Option<Tool>, String>(Some(t)),
            Err(m) => r matches Err(e) && e@ == m,
        },
{
    match daemon {
        Ok(()) => Ok(None),
        Err(_) => match fallback_tool(wayland, have_wl_copy, have_xclip) {
            Ok(t) => Ok(Some(t)),
            Err(e) => Err(e),
        },
    }
}

} // verus!
