//! Clipboard decisions: which targets to read and in what order, how read
//! bytes become text, what goes on the clipboard for an entry, and which
//! helper holds the selection when the daemon is not running. Talking to
//! the X server and running helpers is the caller's part.
use vstd::prelude::*;
use vstd::utf8::{valid_utf8, decode_utf8};
use crate::db::{Entry, opt_view};
use crate::text::{chars_of, string_of, trim, trim_chars, append_chars};

verus! {

/// Image targets, in the order they are tried.
pub const IMAGE_MIMES: [&'static str; 4] = ["image/png", "image/jpeg", "image/bmp", "image/gif"];

/// Text targets in priority order. Not every application offers UTF8_STRING;
/// Java apps such as Burp Suite often provide text/plain;charset=utf-8 too,
/// sometimes only that.
pub const TEXT_MIMES: [&'static str; 3] = ["text/plain;charset=utf-8", "text/plain", "STRING"];

/// Reading content needs a far more generous budget than change detection:
/// Java applications answer selection requests slowly, and large payloads (an
/// HTTP request with a body) force X11 through the multi-round INCR protocol.
pub const READ_TEXT_MS: u64 = 4000;

/// Timeout for reading an image target, in milliseconds.
pub const READ_IMAGE_MS: u64 = 6000;

/// Timeout for asking the owner for its TARGETS, in milliseconds.
pub const TARGETS_MS: u64 = 1500;

/// Timeout for reading the selection TIMESTAMP, in milliseconds.
pub const TIMESTAMP_MS: u64 = 300;

/// The X target that text is put on the clipboard as.
pub const TEXT_TARGET: &'static str = "UTF8_STRING";

/// The type wl-copy is given for text.
pub const WL_TEXT_TYPE: &'static str = "text/plain;charset=utf-8";

/// What was read off the clipboard.
pub enum Grab {
    Text(String),
    Image(Vec<u8>, &'static str),
    Empty,
}

impl Grab {
    /// Whether something was actually read (text or an image).
    pub fn has_content(&self) -> (b: bool)
        ensures
            b == !(self is Empty),
    {
        match self {
            Grab::Empty => false,
            _ => true,
        }
    }
}

/// `String::from_utf8`: the text when `raw` is valid UTF-8, else the bytes back.
#[verifier::external_body]
fn utf8_string(raw: Vec<u8>) -> (r: Result<String, Vec<u8>>)
    ensures
        match r {
            Ok(s) => valid_utf8(raw@) && s@ == decode_utf8(raw@),
            Err(b) => !valid_utf8(raw@) && b@ == raw@,
        },
{
    match String::from_utf8(raw) {
        Ok(s) => Ok(s),
        Err(e) => Err(e.into_bytes()),
    }
}

/// Bytes read as Latin-1: each byte is the character with that code.
pub open spec fn latin1(raw: Seq<u8>) -> Seq<char> {
    Seq::new(raw.len(), |i: int| raw[i] as char)
}

/// The text of clipboard bytes: UTF-8 when valid, else Latin-1.
pub open spec fn decoded(raw: Seq<u8>) -> Seq<char> {
    if valid_utf8(raw) {
        decode_utf8(raw)
    } else {
        latin1(raw)
    }
}

/// Try UTF-8 first; the X11 STRING target is latin-1 by specification, so fall
/// back to that rather than losing the content over one odd byte. Blank text
/// counts as nothing.
pub fn decode_text(raw: Vec<u8>) -> (r: Option<String>)
    ensures
        match r {
            Some(s) => s@ == decoded(raw@) && trim(s@).len() > 0,
            None => trim(decoded(raw@)).len() == 0,
        },
{
    let ghost orig = raw@;
    let s = match utf8_string(raw) {
        Ok(s) => s,
        Err(bytes) => {
            let mut out: Vec<char> = Vec::new();
            let mut i: usize = 0;
            while i < bytes.len()
                invariant
                    i <= bytes@.len(),
                    out@ == latin1(bytes@.take(i as int)),
                decreases bytes@.len() - i,
            {
                out.push(bytes[i] as char);
                assert(out@ =~= latin1(bytes@.take(i + 1)));
                i = i + 1;
            }
            assert(bytes@.take(bytes@.len() as int) =~= bytes@);
            string_of(&out)
        },
    };
    let t = trim_chars(&chars_of(s.as_str()));
    if t.len() == 0 {
        None
    } else {
        Some(s)
    }
}

/// One read to try when grabbing the clipboard.
pub enum Attempt {
    /// Read this text target.
    Text(u32),
    /// Read this image target, of this mime type.
    Image(&'static str, u32),
}

impl Attempt {
    /// The target atom to read.
    pub fn atom(&self) -> (a: u32)
        ensures
            a == attempt_view(*self).2,
    {
        match self {
            Attempt::Text(a) => *a,
            Attempt::Image(_, a) => *a,
        }
    }

    /// How long to wait for the owner, in milliseconds.
    pub fn timeout_ms(&self) -> (ms: u64)
        ensures
            ms == (if self is Text { READ_TEXT_MS } else { READ_IMAGE_MS }),
    {
        match self {
            Attempt::Text(_) => READ_TEXT_MS,
            Attempt::Image(_, _) => READ_IMAGE_MS,
        }
    }
}

/// An attempt as plain values: (is text, mime, atom).
pub open spec fn attempt_view(a: Attempt) -> (bool, Seq<char>, u32) {
    match a {
        Attempt::Text(x) => (true, seq![], x),
        Attempt::Image(m, x) => (false, m@, x),
    }
}

/// The text atoms worth trying, in priority order.
pub open spec fn text_plan(offered: Seq<u32>, text_atoms: Seq<u32>, blind: bool) -> Seq<(bool, Seq<char>, u32)>
    decreases text_atoms.len(),
{
    if text_atoms.len() == 0 {
        seq![]
    } else {
        let prev = text_plan(offered, text_atoms.drop_last(), blind);
        if blind || offered.contains(text_atoms.last()) {
            prev.push((true, seq![], text_atoms.last()))
        } else {
            prev
        }
    }
}

/// The image atoms worth trying, in priority order.
pub open spec fn image_plan(offered: Seq<u32>, image_atoms: Seq<(&'static str, u32)>, blind: bool) -> Seq<(bool, Seq<char>, u32)>
    decreases image_atoms.len(),
{
    if image_atoms.len() == 0 {
        seq![]
    } else {
        let prev = image_plan(offered, image_atoms.drop_last(), blind);
        if blind || offered.contains(image_atoms.last().1) {
            prev.push((false, image_atoms.last().0@, image_atoms.last().1))
        } else {
            prev
        }
    }
}

/// The reads to try, in order: text before images. When the owner lists its
/// TARGETS only those are read (every read of a missing target costs a full
/// timeout); when it lists none, every target is probed in turn.
pub open spec fn grab_plan_spec(offered: Seq<u32>, text_atoms: Seq<u32>, image_atoms: Seq<(&'static str, u32)>) -> Seq<(bool, Seq<char>, u32)> {
    let blind = offered.len() == 0;
    text_plan(offered, text_atoms, blind) + image_plan(offered, image_atoms, blind)
}

fn contains_u32(v: &Vec<u32>, x: u32) -> (b: bool)
    ensures
        b == v@.contains(x),
{
    let mut i: usize = 0;
    while i < v.len()
        invariant
            i <= v@.len(),
            forall|k: int| 0 <= k < i ==> v@[k] != x,
        decreases v@.len() - i,
    {
        if v[i] == x {
            return true;
        }
        i = i + 1;
    }
    false
}

/// The reads to try for a clipboard whose owner offers `targets`.
pub fn grab_plan(targets: &Vec<u32>, text_atoms: &Vec<u32>, image_atoms: &Vec<(&'static str, u32)>) -> (r: Vec<Attempt>)
    ensures
        Seq::new(r@.len(), |i: int| attempt_view(r@[i])) == grab_plan_spec(targets@, text_atoms@, image_atoms@),
{
    let blind: bool = targets.len() == 0;
    let mut out: Vec<Attempt> = Vec::new();
    let mut i: usize = 0;
    while i < text_atoms.len()
        invariant
            i <= text_atoms@.len(),
            blind == (targets@.len() == 0),
            Seq::new(out@.len(), |k: int| attempt_view(out@[k])) == text_plan(targets@, text_atoms@.take(i as int), blind),
        decreases text_atoms@.len() - i,
    {
        let ghost before = Seq::new(out@.len(), |k: int| attempt_view(out@[k]));
        assert(text_atoms@.take(i + 1).drop_last() =~= text_atoms@.take(i as int));
        let a: u32 = text_atoms[i];
        if blind || contains_u32(targets, a) {
            out.push(Attempt::Text(a));
            assert(Seq::new(out@.len(), |k: int| attempt_view(out@[k])) =~= before.push((true, seq![], a)));
        }
        i = i + 1;
    }
    assert(text_atoms@.take(text_atoms@.len() as int) =~= text_atoms@);
    let ghost texts = Seq::new(out@.len(), |k: int| attempt_view(out@[k]));
    let mut j: usize = 0;
    while j < image_atoms.len()
        invariant
            j <= image_atoms@.len(),
            blind == (targets@.len() == 0),
            texts == text_plan(targets@, text_atoms@, blind),
            Seq::new(out@.len(), |k: int| attempt_view(out@[k])) == texts + image_plan(targets@, image_atoms@.take(j as int), blind),
        decreases image_atoms@.len() - j,
    {
        let ghost before = Seq::new(out@.len(), |k: int| attempt_view(out@[k]));
        assert(image_atoms@.take(j + 1).drop_last() =~= image_atoms@.take(j as int));
        let (m, a) = image_atoms[j];
        if blind || contains_u32(targets, a) {
            out.push(Attempt::Image(m, a));
            assert(Seq::new(out@.len(), |k: int| attempt_view(out@[k])) =~= before.push((false, m@, a)));
            assert(texts + image_plan(targets@, image_atoms@.take(j + 1), blind) =~= (texts + image_plan(targets@, image_atoms@.take(j as int), blind)).push((false, m@, a)));
        }
        j = j + 1;
    }
    assert(image_atoms@.take(image_atoms@.len() as int) =~= image_atoms@);
    out
}

/// What a read for `attempt` yields, given the bytes that came back (if any):
/// decoded non-blank text for a text target, the bytes for an image target.
pub fn grab_step(attempt: &Attempt, loaded: Option<Vec<u8>>) -> (r: Option<Grab>)
    ensures
        match (attempt, loaded) {
            (Attempt::Text(_), Some(raw)) => match r {
                Some(Grab::Text(s)) => s@ == decoded(raw@) && trim(s@).len() > 0,
                None => trim(decoded(raw@)).len() == 0,
                _ => false,
            },
            (Attempt::Image(m, _), Some(data)) => match r {
                Some(Grab::Image(d, mm)) => d@ == data@ && mm == m,
                _ => false,
            },
            (_, None) => r is None,
        },
{
    match (attempt, loaded) {
        (Attempt::Text(_), Some(raw)) => match decode_text(raw) {
            Some(s) => Some(Grab::Text(s)),
            None => None,
        },
        (Attempt::Image(m, _), Some(data)) => Some(Grab::Image(data, *m)),
        (_, None) => None,
    }
}

/// Where the bytes to put on the clipboard come from.
pub enum Source {
    /// An image entry: the file holding it, and its mime type.
    ImageFile(String, String),
    /// A text entry: its content.
    Text(String),
}

/// What to put on the clipboard for `entry`: its image file and mime type,
/// or its text. An image entry without a file is an error.
pub fn clipboard_source(entry: &Entry) -> (r: Result<Source, String>)
    ensures
        entry.is_image_spec() ==> match entry.path {
            Some(p) => (r matches Ok(Source::ImageFile(pp, m)) && pp@ == p@ && m@ == crate::db::mime_spec(crate::db::opt_view(entry.meta))),
            None => (r matches Err(e) && e@ == "image entry has no path"@),
        },
        !entry.is_image_spec() ==> (r matches Ok(Source::Text(t)) && t@ == entry.content@),
{
    if entry.is_image() {
        match &entry.path {
            Some(p) => Ok(Source::ImageFile(string_of(&chars_of(p.as_str())), entry.mime())),
            None => Err(string_of(&chars_of("image entry has no path"))),
        }
    } else {
        Ok(Source::Text(string_of(&chars_of(entry.content.as_str()))))
    }
}

/// A helper that holds the selection when the daemon is not running.
pub enum Tool {
    /// wl-copy, for a Wayland session.
    WlCopy,
    /// xclip, for X11 (through XWayland on Wayland).
    Xclip,
}

/// Which helper to use: wl-copy on Wayland when installed, else xclip; an
/// error naming what to install when neither is there.
pub open spec fn fallback_tool_spec(wayland: bool, have_wl_copy: bool, have_xclip: bool) -> Result<Tool, Seq<char>> {
    if wayland && have_wl_copy {
        Ok(Tool::WlCopy)
    } else if !have_xclip {
        if wayland {
            Err("the daemon is not running; install wl-clipboard (wl-copy) for Wayland"@)
        } else {
            Err("the daemon is not running and xclip is not installed"@)
        }
    } else {
        Ok(Tool::Xclip)
    }
}

pub fn fallback_tool(wayland: bool, have_wl_copy: bool, have_xclip: bool) -> (r: Result<Tool, String>)
    ensures
        match r {
            Ok(t) => fallback_tool_spec(wayland, have_wl_copy, have_xclip) == Ok::<Tool, Seq<char>>(t),
            Err(e) => fallback_tool_spec(wayland, have_wl_copy, have_xclip) == Err::<Tool, Seq<char>>(e@),
        },
{
    if wayland && have_wl_copy {
        Ok(Tool::WlCopy)
    } else if !have_xclip {
        if wayland {
            Err(string_of(&chars_of("the daemon is not running; install wl-clipboard (wl-copy) for Wayland")))
        } else {
            Err(string_of(&chars_of("the daemon is not running and xclip is not installed")))
        }
    } else {
        Ok(Tool::Xclip)
    }
}

/// The type `tool` is told the data has: the image's mime type, or for text
/// the UTF-8 text type each helper expects.
pub open spec fn helper_mime_spec(tool: Tool, source: Source) -> Seq<char> {
    match source {
        Source::ImageFile(_, m) => m@,
        Source::Text(_) => match tool {
            Tool::WlCopy => WL_TEXT_TYPE@,
            Tool::Xclip => TEXT_TARGET@,
        },
    }
}

/// The command line that makes `tool` hold `source` (the data goes to its
/// standard input): `wl-copy --type MIME` or
/// `xclip -selection clipboard -t MIME -i`.
pub open spec fn helper_command_spec(tool: Tool, source: Source) -> (Seq<char>, Seq<Seq<char>>) {
    let mime = helper_mime_spec(tool, source);
    match tool {
        Tool::WlCopy => ("wl-copy"@, seq!["--type"@, mime]),
        Tool::Xclip => ("xclip"@, seq!["-selection"@, "clipboard"@, "-t"@, mime, "-i"@]),
    }
}

pub fn helper_command(tool: &Tool, source: &Source) -> (r: (String, Vec<String>))
    ensures
        (r.0@, crate::text::view_all_strings(r.1@)) == helper_command_spec(*tool, *source),
{
    let mime: String = match source {
        Source::ImageFile(_, m) => m.clone(),
        Source::Text(_) => match tool {
            Tool::WlCopy => WL_TEXT_TYPE.to_owned(),
            Tool::Xclip => TEXT_TARGET.to_owned(),
        },
    };
    let ghost mv = mime@;
    let mut args: Vec<String> = Vec::new();
    match tool {
        Tool::WlCopy => {
            args.push("--type".to_owned());
            args.push(mime);
            assert(crate::text::view_all_strings(args@) =~= seq!["--type"@, mv]);
            ("wl-copy".to_owned(), args)
        },
        Tool::Xclip => {
            args.push("-selection".to_owned());
            args.push("clipboard".to_owned());
            args.push("-t".to_owned());
            args.push(mime);
            args.push("-i".to_owned());
            assert(crate::text::view_all_strings(args@) =~= seq!["-selection"@, "clipboard"@, "-t"@, mv, "-i"@]);
            ("xclip".to_owned(), args)
        },
    }
}

/// Whether every character of `s` is an ASCII digit.
pub open spec fn all_ascii_digits(s: Seq<char>) -> bool {
    forall|i: int| 0 <= i < s.len() ==> crate::num::is_digit(#[trigger] s[i])
}

/// The window id in `xdotool getactivewindow` output: the trimmed output
/// when it is a non-empty run of digits.
pub fn window_id(output: &str) -> (r: Option<String>)
    ensures
        match r {
            Some(w) => w@ == trim(output@) && w@.len() > 0 && all_ascii_digits(w@),
            None => trim(output@).len() == 0 || !all_ascii_digits(trim(output@)),
        },
{
    let t = trim_chars(&chars_of(output));
    if t.len() == 0 {
        return None;
    }
    let mut i: usize = 0;
    while i < t.len()
        invariant
            i <= t@.len(),
            t@ == trim(output@),
            forall|k: int| 0 <= k < i ==> crate::num::is_digit(#[trigger] t@[k]),
        decreases t@.len() - i,
    {
        let u: u32 = t[i] as u32;
        if u < 48 || u > 57 {
            assert(!crate::num::is_digit(t@[i as int]));
            return None;
        }
        i = i + 1;
    }
    Some(string_of(&t))
}

/// One step of auto-paste. The steps run in order; a `Run` that may end the
/// paste ends it when the program succeeds.
pub enum PasteStep {
    /// Wait this many milliseconds.
    Sleep(u64),
    /// Run `program` with `args`. `stop_if_ok`: success ends the paste.
    /// `quiet`: its output is captured rather than shown.
    Run { program: String, args: Vec<String>, stop_if_ok: bool, quiet: bool },
    /// Report this message on stderr.
    Warn(String),
}

/// A paste step as plain values.
pub enum PasteStepView {
    Sleep(u64),
    Run(Seq<char>, Seq<Seq<char>>, bool, bool),
    Warn(Seq<char>),
}

impl View for PasteStep {
    type V = PasteStepView;

    open spec fn view(&self) -> PasteStepView {
        match self {
            PasteStep::Sleep(ms) => PasteStepView::Sleep(*ms),
            PasteStep::Run { program, args, stop_if_ok, quiet } => PasteStepView::Run(
                program@,
                crate::text::view_all_strings(args@),
                *stop_if_ok,
                *quiet,
            ),
            PasteStep::Warn(m) => PasteStepView::Warn(m@),
        }
    }
}

/// The views of a list of paste steps.
pub open spec fn paste_views(v: Seq<PasteStep>) -> Seq<PasteStepView> {
    Seq::new(v.len(), |i: int| v[i]@)
}

/// How long auto-paste waits for focus to return to the target window.
pub const PASTE_SETTLE_MS: u64 = 150;

/// Auto-paste on X11: activate the remembered window (when known), let it
/// settle, then send Ctrl+V with xdotool; only a warning without xdotool.
pub open spec fn paste_x11_spec(win: Option<Seq<char>>, have_xdotool: bool) -> Seq<PasteStepView> {
    if !have_xdotool {
        seq![PasteStepView::Warn("[cliphist-lite] xdotool missing, cannot auto-paste: sudo apt install xdotool"@)]
    } else {
        let activate = match win {
            Some(w) => seq![PasteStepView::Run("xdotool"@, seq!["windowactivate"@, "--sync"@, w], false, true)],
            None => seq![],
        };
        activate + seq![
            PasteStepView::Sleep(PASTE_SETTLE_MS),
            PasteStepView::Run("xdotool"@, seq!["key"@, "--clearmodifiers"@, "ctrl+v"@], false, false),
        ]
    }
}

/// Auto-paste on Wayland: the compositor gives focus back by itself, so wait,
/// then try ydotool and after it wtype, each ending the paste when it
/// succeeds and warning when it fails; a last warning when none worked.
pub open spec fn paste_wayland_spec(have_ydotool: bool, have_wtype: bool) -> Seq<PasteStepView> {
    let ydotool = if have_ydotool {
        seq![
            PasteStepView::Run("ydotool"@, seq!["key"@, "29:1"@, "47:1"@, "47:0"@, "29:0"@], true, false),
            PasteStepView::Warn("[cliphist-lite] ydotool failed - is the ydotoold daemon running and do you have access to /dev/uinput? Check: systemctl status ydotool"@),
        ]
    } else {
        seq![]
    };
    let wtype = if have_wtype {
        seq![
            PasteStepView::Run("wtype"@, seq!["-M"@, "ctrl"@, "-k"@, "v"@, "-m"@, "ctrl"@], true, false),
            PasteStepView::Warn("[cliphist-lite] wtype failed - GNOME does not implement the virtual-keyboard protocol; install ydotool instead"@),
        ]
    } else {
        seq![]
    };
    seq![PasteStepView::Sleep(PASTE_SETTLE_MS)] + ydotool + wtype + seq![
        PasteStepView::Warn("[cliphist-lite] no Wayland auto-paste tool found. Install ydotool:\n  sudo apt install ydotool && sudo systemctl enable --now ydotool"@),
    ]
}

fn owned(s: &str) -> (r: String)
    ensures
        r@ == s@,
{
    s.to_owned()
}

fn run_step(program: &str, args: Vec<String>, stop_if_ok: bool, quiet: bool) -> (r: PasteStep)
    ensures
        r@ == PasteStepView::Run(program@, crate::text::view_all_strings(args@), stop_if_ok, quiet),
{
    PasteStep::Run { program: owned(program), args, stop_if_ok, quiet }
}

fn warn_step(m: &str) -> (r: PasteStep)
    ensures
        r@ == PasteStepView::Warn(m@),
{
    PasteStep::Warn(owned(m))
}

/// The steps that paste the clipboard into the window that had focus:
/// `win` is the window remembered on X11, the flags say which helpers are
/// installed. The caller runs the steps.
pub fn auto_paste(wayland: bool, win: Option<String>, have_xdotool: bool, have_ydotool: bool, have_wtype: bool) -> (r: Vec<PasteStep>)
    ensures
        paste_views(r@) == (if wayland {
            paste_wayland_spec(have_ydotool, have_wtype)
        } else {
            paste_x11_spec(opt_view(win), have_xdotool)
        }),
{
    let mut out: Vec<PasteStep> = Vec::new();
    if wayland {
        out.push(PasteStep::Sleep(PASTE_SETTLE_MS));
        if have_ydotool {
            let mut a: Vec<String> = Vec::new();
            a.push(owned("key"));
            a.push(owned("29:1"));
            a.push(owned("47:1"));
            a.push(owned("47:0"));
            a.push(owned("29:0"));
            assert(crate::text::view_all_strings(a@) =~= seq!["key"@, "29:1"@, "47:1"@, "47:0"@, "29:0"@]);
            out.push(run_step("ydotool", a, true, false));
            out.push(warn_step("[cliphist-lite] ydotool failed - is the ydotoold daemon running and do you have access to /dev/uinput? Check: systemctl status ydotool"));
        }
        if have_wtype {
            let mut a: Vec<String> = Vec::new();
            a.push(owned("-M"));
            a.push(owned("ctrl"));
            a.push(owned("-k"));
            a.push(owned("v"));
            a.push(owned("-m"));
            a.push(owned("ctrl"));
            assert(crate::text::view_all_strings(a@) =~= seq!["-M"@, "ctrl"@, "-k"@, "v"@, "-m"@, "ctrl"@]);
            out.push(run_step("wtype", a, true, false));
            out.push(warn_step("[cliphist-lite] wtype failed - GNOME does not implement the virtual-keyboard protocol; install ydotool instead"));
        }
        out.push(warn_step("[cliphist-lite] no Wayland auto-paste tool found. Install ydotool:\n  sudo apt install ydotool && sudo systemctl enable --now ydotool"));
        assert(paste_views(out@) =~= paste_wayland_spec(have_ydotool, have_wtype));
    } else if !have_xdotool {
        out.push(warn_step("[cliphist-lite] xdotool missing, cannot auto-paste: sudo apt install xdotool"));
        assert(paste_views(out@) =~= paste_x11_spec(opt_view(win), have_xdotool));
    } else {
        match win {
            Some(w) => {
                let mut a: Vec<String> = Vec::new();
                a.push(owned("windowactivate"));
                a.push(owned("--sync"));
                let ghost wv = w@;
                a.push(w);
                assert(crate::text::view_all_strings(a@) =~= seq!["windowactivate"@, "--sync"@, wv]);
                out.push(run_step("xdotool", a, false, true));
            },
            None => {},
        }
        out.push(PasteStep::Sleep(PASTE_SETTLE_MS));
        let mut a: Vec<String> = Vec::new();
        a.push(owned("key"));
        a.push(owned("--clearmodifiers"));
        a.push(owned("ctrl+v"));
        assert(crate::text::view_all_strings(a@) =~= seq!["key"@, "--clearmodifiers"@, "ctrl+v"@]);
        out.push(run_step("xdotool", a, false, false));
        assert(paste_views(out@) =~= paste_x11_spec(opt_view(win), have_xdotool));
    }
    out
}

} // verus!
