//! What `cliphist doctor` checks and how it reports: the helpers it looks
//! for, where ydotoold's socket is, and whether the user is in a group.
use vstd::prelude::*;
use crate::text::{chars_of, string_of, append_chars, split_words, chars_eq, view_all, words};

verus! {

/// The helpers `doctor` looks for on `PATH`: the Wayland ones (ydotool,
/// wl-copy) or the X11 ones (xdotool, xclip), and gsettings either way.
pub open spec fn doctor_tools_spec(wayland: bool) -> Seq<Seq<char>> {
    if wayland {
        seq!["ydotool"@, "wl-copy"@, "gsettings"@]
    } else {
        seq!["xdotool"@, "xclip"@, "gsettings"@]
    }
}

pub fn doctor_tools(wayland: bool) -> (r: Vec<&'static str>)
    ensures
        r@.len() == 3,
        forall|i: int| 0 <= i < 3 ==> #[trigger] r@[i]@ == doctor_tools_spec(wayland)[i],
{
    let mut out: Vec<&'static str> = Vec::new();
    if wayland {
        out.push("ydotool");
        out.push("wl-copy");
    } else {
        out.push("xdotool");
        out.push("xclip");
    }
    out.push("gsettings");
    out
}

/// Whether `group` is one of the words of `id -nG`'s output.
pub fn in_group(id_output: &str, group: &str) -> (b: bool)
    ensures
        b == words(id_output@).contains(group@),
{
    let ws = split_words(&chars_of(id_output));
    let g = chars_of(group);
    let mut i: usize = 0;
    while i < ws.len()
        invariant
            i <= ws@.len(),
            g@ == group@,
            view_all(ws@) == words(id_output@),
            forall|k: int| 0 <= k < i ==> #[trigger] view_all(ws@)[k] != group@,
        decreases ws@.len() - i,
    {
        if chars_eq(&ws[i], &g) {
            assert(view_all(ws@)[i as int] == group@);
            return true;
        }
        i = i + 1;
    }
    false
}

/// Where ydotoold listens: `YDOTOOL_SOCKET` when set, else
/// `.ydotool_socket` in `XDG_RUNTIME_DIR`, else in `/tmp`.
pub open spec fn ydotool_socket_spec(env_socket: Option<Seq<char>>, runtime_dir: Option<Seq<char>>) -> Seq<char> {
    match env_socket {
        Some(s) => s,
        None => match runtime_dir {
            Some(d) => d + "/.ydotool_socket"@,
            None => "/tmp/.ydotool_socket"@,
        },
    }
}

pub fn ydotool_socket(env_socket: Option<&str>, runtime_dir: Option<&str>) -> (r: String)
    ensures
        r@ == ydotool_socket_spec(
            match env_socket { Some(s) => Some(s@), None => None },
            match runtime_dir { Some(d) => Some(d@), None => None },
        ),
{
    match env_socket {
        Some(s) => string_of(&chars_of(s)),
        None => {
            let mut out = match runtime_dir {
                Some(d) => chars_of(d),
                None => chars_of("/tmp"),
            };
            append_chars(&mut out, &chars_of("/.ydotool_socket"));
            proof {
                reveal_strlit("/tmp");
                reveal_strlit("/.ydotool_socket");
                reveal_strlit("/tmp/.ydotool_socket");
                if runtime_dir is None {
                    assert(out@ =~= "/tmp/.ydotool_socket"@);
                }
            }
            string_of(&out)
        },
    }
}

/// `s` left-aligned in `width` characters (as `{:<width}` pads it).
pub open spec fn pad_right(s: Seq<char>, width: nat) -> Seq<char> {
    if s.len() >= width {
        s
    } else {
        s + Seq::new((width - s.len()) as nat, |i: int| ' ')
    }
}

/// One line of the report: the name padded to 14 columns, then ` = value`.
pub fn report_line(name: &str, value: &str) -> (r: String)
    ensures
        r@ == pad_right(name@, 14) + " = "@ + value@,
{
    let mut out = chars_of(name);
    let n: usize = out.len();
    if n < 14 {
        let mut k: usize = n;
        while k < 14
            invariant
                n <= k <= 14,
                n == name@.len(),
                out@ == name@ + Seq::new((k - n) as nat, |i: int| ' '),
            decreases 14 - k,
        {
            out.push(' ');
            assert(out@ =~= name@ + Seq::new((k + 1 - n) as nat, |i: int| ' '));
            k = k + 1;
        }
    }
    assert(out@ =~= pad_right(name@, 14));
    append_chars(&mut out, &chars_of(" = "));
    append_chars(&mut out, &chars_of(value));
    string_of(&out)
}

} // verus!
