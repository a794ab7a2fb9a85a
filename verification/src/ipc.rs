//! The picker-daemon protocol: one request line over a Unix socket,
//! "PING" or "SET <id>", answered by one reply line.
use vstd::prelude::*;
use crate::text::{chars_of, string_of, trim, trim_chars, find_char, slice_chars, chars_eq, is_ws};
use crate::num::{parse_signed, signed_decimal};

verus! {

/// The picker gives up after this long, in nanoseconds. The daemon uses the
/// same value to drop requests it can no longer answer in time, so a late
/// reply never applies a clipboard change the picker has already handled.
pub const REQUEST_DEADLINE_NANOS: u128 = 9_000_000_000;

/// The reply when the daemon cannot take a request.
pub const REPLY_BUSY: &'static str = "ERR daemon busy";

/// The reply when the daemon did not answer in time.
pub const REPLY_TIMEOUT: &'static str = "ERR timeout";

/// A request sent from the picker to the daemon: put entry `id` on the
/// clipboard. `asked_at_nanos` is when the picker asked (on a monotonic
/// clock), `reply` is where the answer goes.
pub enum Req<Reply> {
    SetEntry(i64, u128, Reply),
}

/// How the listener answers one request line: with a reply right away, or
/// by handing a SET for entry `id` to the daemon.
pub enum Handled {
    Reply(String),
    Forward(i64),
}

/// The meaning of `Handled`, over plain values.
pub enum HandledView {
    Reply(Seq<char>),
    Forward(i64),
}

impl View for Handled {
    type V = HandledView;

    open spec fn view(&self) -> HandledView {
        match self {
            Handled::Reply(s) => HandledView::Reply(s@),
            Handled::Forward(id) => HandledView::Forward(*id),
        }
    }
}

/// The command word of a request line: up to its first space.
pub open spec fn command_word(t: Seq<char>) -> Seq<char> {
    t.take(find_char(t, ' '))
}

/// The argument of a request line: what follows its first space, if any.
pub open spec fn command_arg(t: Seq<char>) -> Option<Seq<char>> {
    let k = find_char(t, ' ');
    if k < t.len() {
        Some(t.skip(k + 1))
    } else {
        None
    }
}

/// The answer to request line `line`.
pub open spec fn handle_spec(line: Seq<char>) -> HandledView {
    let t = trim(line);
    let cmd = command_word(t);
    if cmd == "PING"@ {
        HandledView::Reply("OK"@)
    } else if cmd == "SET"@ && command_arg(t) is Some {
        match parse_signed(trim(command_arg(t)->0), i64::MAX as nat) {
            Some(id) => HandledView::Forward(id as i64),
            None => HandledView::Reply("ERR invalid id"@),
        }
    } else {
        HandledView::Reply("ERR unknown command"@)
    }
}

/// Answers one request line as read from the socket.
pub fn handle(line: &str) -> (r: Handled)
    ensures
        r@ == handle_spec(line@),
{
    proof {
        reveal_strlit("PING");
        reveal_strlit("SET");
    }
    let lc = chars_of(line);
    let t = trim_chars(&lc);
    let k: usize = crate::settings::find_char_exec(&t, ' ');
    let cmd = slice_chars(&t, 0, k);
    assert(cmd@ =~= command_word(t@));
    if chars_eq(&cmd, &chars_of("PING")) {
        return Handled::Reply(string_of(&chars_of("OK")));
    }
    if chars_eq(&cmd, &chars_of("SET")) && k < t.len() {
        let arg = slice_chars(&t, k + 1, t.len());
        assert(arg@ =~= t@.skip(k + 1));
        let a = string_of(&trim_chars(&arg));
        match crate::num::parse_i64(a.as_str()) {
            Some(id) => Handled::Forward(id),
            None => Handled::Reply(string_of(&chars_of("ERR invalid id"))),
        }
    } else {
        Handled::Reply(string_of(&chars_of("ERR unknown command")))
    }
}

/// The request line (without its newline) asking to put entry `id` on the clipboard.
pub open spec fn set_request_spec(id: i64) -> Seq<char> {
    "SET "@ + signed_decimal(id as int)
}

pub fn set_request(id: i64) -> (r: String)
    ensures
        r@ == set_request_spec(id),
{
    let mut out = chars_of("SET ");
    crate::text::append_chars(&mut out, &crate::num::i64_chars(id));
    string_of(&out)
}

/// What the picker makes of the daemon's reply: success on "OK", else the
/// trimmed reply as the error.
pub open spec fn client_reply_spec(line: Seq<char>) -> Result<(), Seq<char>> {
    if trim(line) == "OK"@ {
        Ok(())
    } else {
        Err(trim(line))
    }
}

pub fn client_reply(line: &str) -> (r: Result<(), String>)
    ensures
        match r {
            Ok(()) => client_reply_spec(line@) == Ok::<(), Seq<char>>(()),
            Err(e) => client_reply_spec(line@) == Err::<(), Seq<char>>(e@),
        },
{
    let t = trim_chars(&chars_of(line));
    if chars_eq(&t, &chars_of("OK")) {
        Ok(())
    } else {
        Err(string_of(&t))
    }
}

/// Whether a reply to PING says the daemon is alive.
pub fn is_ok_reply(line: &str) -> (b: bool)
    ensures
        b == (trim(line@) == "OK"@),
{
    let t = trim_chars(&chars_of(line));
    chars_eq(&t, &chars_of("OK"))
}

proof fn lemma_trim_fixed(s: Seq<char>)
    requires
        s.len() > 0,
        !is_ws(s[0]),
        !is_ws(s.last()),
    ensures
        trim(s) == s,
{
}

/// A SET request written by the picker reaches the daemon as a SET of the
/// same entry.
pub proof fn lemma_set_request_roundtrip(id: i64)
    ensures
        handle_spec(set_request_spec(id)) == HandledView::Forward(id),
{
    reveal_strlit("SET ");
    reveal_strlit("SET");
    reveal_strlit("PING");
    let d = signed_decimal(id as int);
    let s = set_request_spec(id);
    crate::num::lemma_parse_signed_decimal(id);
    let m = if id < 0 { (-(id as int)) as nat } else { id as nat };
    crate::num::lemma_decimal_digits(m);
    assert(d.len() > 0);
    assert(d.last() == crate::num::decimal(m).last());
    assert(crate::num::is_digit(d.last()));
    assert(s.last() == d.last());
    assert(s[0] == 'S');
    lemma_trim_fixed(s);
    assert(s[3] == ' ');
    crate::text::lemma_find_char(s, ' ', 3);
    assert(command_word(s) =~= "SET"@);
    assert(command_arg(s)->0 =~= d);
    if id < 0 {
        assert(d[0] == '-');
    } else {
        assert(crate::num::is_digit(d[0]));
    }
    lemma_trim_fixed(d);
}

} // verus!
