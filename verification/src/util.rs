//! Display helpers: sizes, ages, one-line previews.
use vstd::prelude::*;
use crate::num::{decimal, digit_char, u64_chars};
use crate::text::{
    chars_of, string_of, trim, trim_chars, lines, split_lines, words, split_words, join,
    join_chars, truncated, truncate_chars, view_all, append_chars,
};

verus! {

/// Name of the application, used for its directories and log prefixes.
pub const APP: &'static str = "cliphist-lite";

/// `a / b` rounded to the nearest integer, ties to the even one.
pub open spec fn div_round_even(a: nat, b: nat) -> nat
    recommends
        b > 0,
{
    let q = a / b;
    let r = a % b;
    if 2 * r > b || (2 * r == b && q % 2 == 1) {
        q + 1
    } else {
        q
    }
}

/// Two to the fifty-third: integers below it are exact in an `f64`.
pub open spec fn f64_exact_limit() -> nat {
    0x20_0000_0000_0000
}

/// The power of two by which `n` is scaled down until it fits 53 bits.
pub open spec fn f64_scale(n: nat, p: nat) -> nat
    decreases n - p,
{
    if p == 0 || n / p < f64_exact_limit() || p >= n {
        p
    } else {
        proof {
            assert(n >= 2 * p) by (nonlinear_arith)
                requires
                    n / p >= 0x20_0000_0000_0000,
                    p > 0,
            ;
        }
        f64_scale(n, 2 * p)
    }
}

/// The value of `n as f64`: `n` rounded to 53 significant bits, ties to even.
pub open spec fn f64_value(n: nat) -> nat {
    let p = f64_scale(n, 1);
    if p <= 1 {
        n
    } else {
        let q = n / p;
        let r = n % p;
        let half = p / 2;
        let m = if r > half || (r == half && q % 2 == 1) {
            q + 1
        } else {
            q
        };
        m * p
    }
}

/// `t` tenths written with one decimal place, as `{:.1}` writes it.
pub open spec fn one_decimal(t: nat) -> Seq<char> {
    decimal(t / 10) + seq!['.', digit_char((t % 10) as int)]
}

/// What `human_bytes` writes for `n` bytes: plain bytes below 1 KiB, else
/// KB or MB with one decimal, rounded as `format!("{:.1}", ..)` rounds the
/// `f64` quotient.
pub open spec fn human_bytes_spec(n: nat) -> Seq<char> {
    if n < 1024 {
        decimal(n) + seq![' ', 'B']
    } else if n < 1024 * 1024 {
        one_decimal(div_round_even(10 * n, 1024)) + seq![' ', 'K', 'B']
    } else {
        one_decimal(div_round_even(10 * f64_value(n), 1024 * 1024)) + seq![' ', 'M', 'B']
    }
}

fn div_round_even_exec(a: u128, b: u128) -> (r: u128)
    requires
        0 < b < u128::MAX / 4,
        a < u128::MAX / 4,
    ensures
        r == div_round_even(a as nat, b as nat),
        r <= a / b + 1,
{
    let q: u128 = a / b;
    let r: u128 = a % b;
    assert(q <= a) by (nonlinear_arith)
        requires
            q == a / b,
            b > 0,
    ;
    if 2 * r > b || (2 * r == b && q % 2 == 1) {
        q + 1
    } else {
        q
    }
}

fn f64_value_exec(n: u64) -> (v: u128)
    ensures
        v == f64_value(n as nat),
        v <= 2 * (n as nat),
{
    let ghost nn = n as nat;
    let big: u128 = n as u128;
    let mut p: u128 = 1;
    while !(big / p < 0x20_0000_0000_0000 || p >= big)
        invariant
            nn == big as nat,
            p >= 1,
            p <= big || p == 1,
            f64_scale(nn, p as nat) == f64_scale(nn, 1),
        decreases big - p,
    {
        assert(big >= 2 * p) by (nonlinear_arith)
            requires
                big / p >= 0x20_0000_0000_0000,
                p > 0,
        ;
        assert(nn / (p as nat) >= f64_exact_limit());
        assert(f64_scale(nn, p as nat) == f64_scale(nn, 2 * (p as nat)));
        p = 2 * p;
    }
    assert(f64_scale(nn, p as nat) == p);
    if p <= 1 {
        return big;
    }
    let q: u128 = big / p;
    let r: u128 = big % p;
    let half: u128 = p / 2;
    let m: u128 = if r > half || (r == half && q % 2 == 1) {
        q + 1
    } else {
        q
    };
    assert(m * p <= 2 * big) by (nonlinear_arith)
        requires
            q == big / p,
            r == big % p,
            p > 1,
            m <= q + 1,
            p <= big,
    ;
    m * p
}

/// Writes `t` tenths with one decimal place.
fn one_decimal_exec(t: u64) -> (r: Vec<char>)
    ensures
        r@ == one_decimal(t as nat),
{
    let mut out = u64_chars(t / 10);
    out.push('.');
    let last = u64_chars(t % 10);
    assert(last@ == seq![digit_char((t % 10) as int)]);
    append_chars(&mut out, &last);
    out
}

/// Human-readable size: "512 B", "1.5 KB", "2.0 MB".
pub fn human_bytes(n: usize) -> (s: String)
    ensures
        s@ == human_bytes_spec(n as nat),
{
    let mut out: Vec<char>;
    if n < 1024 {
        out = u64_chars(n as u64);
        out.push(' ');
        out.push('B');
    } else if n < 1024 * 1024 {
        let t: u128 = div_round_even_exec(10 * (n as u128), 1024);
        out = one_decimal_exec(t as u64);
        out.push(' ');
        out.push('K');
        out.push('B');
    } else {
        let v: u128 = f64_value_exec(n as u64);
        let t: u128 = div_round_even_exec(10 * v, 1024 * 1024);
        let tenv: u128 = 10 * v;
        assert(tenv / 1048576 <= 0x1000_0000_0000_0000) by (nonlinear_arith)
            requires
                tenv <= 20 * 0x1_0000_0000_0000_0000,
        ;
        out = one_decimal_exec(t as u64);
        out.push(' ');
        out.push('M');
        out.push('B');
    }
    assert(out@ =~= human_bytes_spec(n as nat));
    string_of(&out)
}

/// What `human_age` writes for an age of `d` seconds.
pub open spec fn human_age_spec(d: nat) -> Seq<char> {
    if d < 60 {
        decimal(d).push('s')
    } else if d < 3600 {
        decimal(d / 60).push('m')
    } else if d < 86400 {
        decimal(d / 3600).push('h')
    } else {
        decimal(d / 86400).push('d')
    }
}

/// Human-readable age of something `elapsed_secs` seconds old: "42s", "5m",
/// "3h", "2d". (The caller measures the age; timestamps are floats.)
pub fn human_age(elapsed_secs: u64) -> (s: String)
    ensures
        s@ == human_age_spec(elapsed_secs as nat),
{
    let d: u64 = elapsed_secs;
    let mut out: Vec<char>;
    if d < 60 {
        out = u64_chars(d);
        out.push('s');
    } else if d < 3600 {
        out = u64_chars(d / 60);
        out.push('m');
    } else if d < 86400 {
        out = u64_chars(d / 3600);
        out.push('h');
    } else {
        out = u64_chars(d / 86400);
        out.push('d');
    }
    string_of(&out)
}

/// The marker that `preview` puts between the lines it flattens.
pub open spec fn line_mark() -> Seq<char> {
    seq![' ', '\u{23ce}', ' ']
}

/// The trimmed, non-empty lines among `ls`.
pub open spec fn kept_lines(ls: Seq<Seq<char>>) -> Seq<Seq<char>>
    decreases ls.len(),
{
    if ls.len() == 0 {
        seq![]
    } else {
        let prev = kept_lines(ls.drop_last());
        let t = trim(ls.last());
        if t.len() == 0 {
            prev
        } else {
            prev.push(t)
        }
    }
}

/// `text` collapsed into one line: its non-blank lines, trimmed, joined by
/// " ⏎ ", every run of whitespace made a single space, then truncated.
pub open spec fn preview_spec(text: Seq<char>, width: nat) -> Seq<char> {
    let joined = join(kept_lines(lines(trim(text))), line_mark());
    truncated(join(words(joined), seq![' ']), width)
}

fn kept_lines_exec(ls: &Vec<Vec<char>>) -> (r: Vec<Vec<char>>)
    ensures
        view_all(r@) == kept_lines(view_all(ls@)),
{
    let mut out: Vec<Vec<char>> = Vec::new();
    let mut i: usize = 0;
    while i < ls.len()
        invariant
            i <= ls@.len(),
            view_all(out@) == kept_lines(view_all(ls@).take(i as int)),
        decreases ls@.len() - i,
    {
        let ghost before = view_all(out@);
        let t = trim_chars(&ls[i]);
        assert(view_all(ls@).take(i + 1).drop_last() =~= view_all(ls@).take(i as int));
        if t.len() > 0 {
            out.push(t);
            assert(view_all(out@) =~= before.push(t@));
        }
        i = i + 1;
    }
    assert(view_all(ls@).take(ls@.len() as int) =~= view_all(ls@));
    out
}

/// Collapse text into a single line for display.
pub fn preview(text: &str, width: usize) -> (s: String)
    ensures
        s@ == preview_spec(text@, width as nat),
{
    let chars = chars_of(text);
    let trimmed = trim_chars(&chars);
    let ls = split_lines(&trimmed);
    let kept = kept_lines_exec(&ls);
    let mut mark: Vec<char> = Vec::new();
    mark.push(' ');
    mark.push('\u{23ce}');
    mark.push(' ');
    assert(mark@ =~= line_mark());
    let joined = join_chars(&kept, &mark);
    let ws = split_words(&joined);
    let mut space: Vec<char> = Vec::new();
    space.push(' ');
    assert(space@ =~= seq![' ']);
    let flat = join_chars(&ws, &space);
    let out = truncate_chars(&flat, width);
    string_of(&out)
}

/// `s` cut to `width` characters, ending in "…" when it was longer.
pub fn truncate(s: &str, width: usize) -> (r: String)
    ensures
        r@ == truncated(s@, width as nat),
{
    let chars = chars_of(s);
    let out = truncate_chars(&chars, width);
    string_of(&out)
}


/// True when running under a Wayland session: `WAYLAND_DISPLAY` is set or
/// `XDG_SESSION_TYPE` is "wayland". X11 input tools (xdotool) cannot see the
/// focused window or inject keystrokes into Wayland-native apps there, and
/// GDK seat grabs on a normal toplevel do not deliver outside clicks, so both
/// auto-paste and click-outside-to-close need a different path.
pub fn is_wayland(wayland_display_set: bool, session_type: Option<&str>) -> (b: bool)
    ensures
        b == (wayland_display_set || (match session_type {
            Some(t) => t@ == "wayland"@,
            None => false,
        })),
{
    if wayland_display_set {
        return true;
    }
    match session_type {
        Some(t) => crate::text::str_eq(t, "wayland"),
        None => false,
    }
}

/// The places `which` looks for `bin`: each directory of the `PATH` value,
/// split at `:`, joined with `bin`, in order.
pub fn which_candidates(path_var: &str, bin: &str) -> (r: Vec<String>)
    ensures
        r@.len() == crate::text::split_on(path_var@, ':').len(),
        forall|i: int| 0 <= i < r@.len() ==> (#[trigger] r@[i])@ == crate::paths::join_path(
            crate::text::split_on(path_var@, ':')[i],
            bin@,
        ),
{
    let dirs = crate::text::split_chars(&chars_of(path_var), ':');
    let mut out: Vec<String> = Vec::new();
    let mut i: usize = 0;
    while i < dirs.len()
        invariant
            i <= dirs@.len(),
            view_all(dirs@) == crate::text::split_on(path_var@, ':'),
            out@.len() == i,
            forall|k: int| 0 <= k < i ==> (#[trigger] out@[k])@ == crate::paths::join_path(
                view_all(dirs@)[k],
                bin@,
            ),
        decreases dirs@.len() - i,
    {
        let d = string_of(&dirs[i]);
        out.push(crate::paths::join(d.as_str(), bin));
        i = i + 1;
    }
    out
}

/// Why a second daemon does not start: the pid of the running one (from
/// its lock file) and how to stop it, when known.
pub open spec fn already_running_spec(pid: Option<i32>) -> Seq<char> {
    match pid {
        Some(p) => "daemon is already running (pid "@ + crate::num::signed_decimal(p as int)
            + "). Stop it with: kill "@ + crate::num::signed_decimal(p as int),
        None => "daemon is already running"@,
    }
}

pub fn already_running(pid: Option<i32>) -> (r: String)
    ensures
        r@ == already_running_spec(pid),
{
    match pid {
        Some(p) => {
            let d = crate::num::i64_chars(p as i64);
            let mut out = chars_of("daemon is already running (pid ");
            append_chars(&mut out, &d);
            append_chars(&mut out, &chars_of("). Stop it with: kill "));
            append_chars(&mut out, &d);
            string_of(&out)
        },
        None => string_of(&chars_of("daemon is already running")),
    }
}

/// The pid written in a held lock file, if it reads as one.
pub fn lock_holder(contents: &str) -> (r: Option<i32>)
    ensures
        r == (match crate::num::parse_signed(trim(contents@), i32::MAX as nat) {
            Some(v) => Some(v as i32),
            None => None::<i32>,
        }),
{
    let t = string_of(&trim_chars(&chars_of(contents)));
    crate::num::parse_i32(t.as_str())
}
/// Whether `s` is a single line whose only whitespace is plain spaces.
pub open spec fn one_line(s: Seq<char>) -> bool {
    forall|i: int| 0 <= i < s.len() ==> #[trigger] s[i] == ' ' || !crate::text::is_ws(s[i])
}

proof fn lemma_find_ws_prefix(s: Seq<char>)
    ensures
        forall|m: int| 0 <= m < crate::text::find_ws(s) ==> !crate::text::is_ws(#[trigger] s[m]),
    decreases s.len(),
{
    if s.len() > 0 && !crate::text::is_ws(s[0]) {
        let d = s.drop_first();
        crate::text::lemma_find_ws_bounds(s);
        lemma_find_ws_prefix(d);
        assert forall|m: int| 0 <= m < crate::text::find_ws(s) implies !crate::text::is_ws(#[trigger] s[m]) by {
            if m > 0 {
                assert(s[m] == d[m - 1]);
            }
        }
    }
}

/// No word holds whitespace.
proof fn lemma_words_no_ws(s: Seq<char>)
    ensures
        forall|i: int, j: int|
            0 <= i < words(s).len() && 0 <= j < words(s)[i].len() ==> !crate::text::is_ws(
                #[trigger] words(s)[i][j],
            ),
    decreases s.len(),
{
    let t = crate::text::trim_start(s);
    crate::text::lemma_trim_start_shape(s);
    crate::text::lemma_find_ws_bounds(t);
    if t.len() > 0 {
        let k = crate::text::find_ws(t);
        let rest = t.subrange(k, t.len() as int);
        lemma_words_no_ws(rest);
        lemma_find_ws_prefix(t);
        let ws = words(s);
        assert(ws == seq![t.subrange(0, k)] + words(rest));
        assert forall|i: int, j: int| 0 <= i < ws.len() && 0 <= j < ws[i].len() implies !crate::text::is_ws(
            #[trigger] ws[i][j],
        ) by {
            if i == 0 {
                assert(ws[0][j] == t[j]);
            } else {
                assert(ws[i] == words(rest)[i - 1]);
            }
        }
    }
}

/// Parts without whitespace joined by single spaces make one line.
proof fn lemma_join_spaced(ls: Seq<Seq<char>>)
    requires
        forall|i: int, j: int| 0 <= i < ls.len() && 0 <= j < ls[i].len() ==> !crate::text::is_ws(#[trigger] ls[i][j]),
    ensures
        one_line(join(ls, seq![' '])),
    decreases ls.len(),
{
    if ls.len() == 1 {
        assert forall|k: int| 0 <= k < join(ls, seq![' ']).len() implies #[trigger] join(ls, seq![' '])[k] == ' '
            || !crate::text::is_ws(join(ls, seq![' '])[k]) by {
            assert(join(ls, seq![' ']) == ls[0]);
            assert(!crate::text::is_ws(ls[0][k]));
        }
    } else if ls.len() > 1 {
        let d = ls.drop_last();
        assert forall|i: int, j: int| 0 <= i < d.len() && 0 <= j < d[i].len() implies !crate::text::is_ws(
            #[trigger] d[i][j],
        ) by {
            assert(d[i] == ls[i]);
        }
        lemma_join_spaced(d);
        let a = join(d, seq![' ']);
        let l = ls.last();
        let r = join(ls, seq![' ']);
        assert(r == a + seq![' '] + l);
        assert forall|k: int| 0 <= k < r.len() implies #[trigger] r[k] == ' ' || !crate::text::is_ws(r[k]) by {
            if k < a.len() {
                assert(r[k] == a[k]);
            } else if k == a.len() {
                assert(r[k] == ' ');
            } else {
                assert(r[k] == l[k - a.len() - 1]);
                assert(!crate::text::is_ws(ls[ls.len() - 1][k - a.len() - 1]));
            }
        }
    }
}

/// A preview is a single line, spaces its only whitespace, no longer than
/// `width` characters (one, the ellipsis, when `width` is zero).
pub proof fn lemma_preview_one_line(text: Seq<char>, width: nat)
    ensures
        one_line(preview_spec(text, width)),
        preview_spec(text, width).len() <= (if width == 0 { 1 } else { width }),
{
    let joined = join(kept_lines(lines(trim(text))), line_mark());
    let ws = words(joined);
    lemma_words_no_ws(joined);
    lemma_join_spaced(ws);
    let flat = join(ws, seq![' ']);
    let p = preview_spec(text, width);
    assert(p == truncated(flat, width));
    if flat.len() > width {
        let keep: int = if width == 0 { 0 } else { width - 1 };
        assert(p == flat.take(keep).push(crate::text::ellipsis()));
        assert forall|i: int| 0 <= i < p.len() implies #[trigger] p[i] == ' ' || !crate::text::is_ws(p[i]) by {
            if i < keep {
                assert(p[i] == flat[i]);
            } else {
                assert(p[i] == '\u{2026}');
            }
        }
    }
}

} // verus!
