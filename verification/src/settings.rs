//! settings.conf: `key=value` lines, `#` starts a comment line. Reading one
//! key, and rewriting the file text so that it holds a new value.
use vstd::prelude::*;
use crate::text::{
    is_ws, trim_start, trim_end, lemma_trim_start_shape, lemma_trim_end_append, lemma_trim_commute,
    lemma_trim_end_idem, lemma_trim_strip_cr, lemma_lines_of_joined, lemma_find_char_bounds,
    single_lines, strip_cr, chars_of, string_of, trim, trim_chars, lines, split_lines, find_char, lemma_find_char, slice_chars,
    chars_eq, str_eq, view_all, append_chars, join, join_chars,
};
use crate::num::parse_unsigned;

verus! {

/// Whether the trimmed line `t` is an entry (neither blank nor a comment).
pub open spec fn is_entry(t: Seq<char>) -> bool {
    t.len() > 0 && t[0] != '#'
}

/// Whether the raw line `line` is an entry whose key is `key`.
pub open spec fn line_has_key(line: Seq<char>, key: Seq<char>) -> bool {
    let t = trim(line);
    let k = find_char(t, '=');
    is_entry(t) && k < t.len() && trim(t.take(k)) == key
}

/// The trimmed value of an entry line (what follows its first `=`).
pub open spec fn line_value(line: Seq<char>) -> Seq<char> {
    let t = trim(line);
    trim(t.skip(find_char(t, '=') + 1))
}

/// The value of the first entry in `ls` whose key is `key`.
pub open spec fn lookup(ls: Seq<Seq<char>>, key: Seq<char>) -> Option<Seq<char>>
    decreases ls.len(),
{
    if ls.len() == 0 {
        None
    } else if line_has_key(ls[0], key) {
        Some(line_value(ls[0]))
    } else {
        lookup(ls.drop_first(), key)
    }
}

/// The value that the settings text `text` gives `key`.
pub open spec fn setting_spec(text: Seq<char>, key: Seq<char>) -> Option<Seq<char>> {
    lookup(lines(text), key)
}

/// The index of the first `c` in `s`, or `s.len()`.
pub fn find_char_exec(s: &Vec<char>, c: char) -> (r: usize)
    ensures
        r == find_char(s@, c),
        r <= s@.len(),
{
    let mut i: usize = 0;
    while i < s.len() && s[i] != c
        invariant
            i <= s@.len(),
            forall|m: int| 0 <= m < i ==> #[trigger] s@[m] != c,
        decreases s@.len() - i,
    {
        i = i + 1;
    }
    proof {
        lemma_find_char(s@, c, i as int);
    }
    i
}

/// Whether `line` is an entry for `key`, and if so its value.
fn match_line(line: &Vec<char>, key: &Vec<char>) -> (r: Option<Vec<char>>)
    ensures
        r is Some <==> line_has_key(line@, key@),
        r matches Some(v) ==> v@ == line_value(line@),
{
    let t = trim_chars(line);
    if t.len() == 0 || t[0] == '#' {
        return None;
    }
    let k: usize = find_char_exec(&t, '=');
    if k >= t.len() {
        return None;
    }
    let name = slice_chars(&t, 0, k);
    assert(name@ =~= t@.take(k as int));
    let name_t = trim_chars(&name);
    if !chars_eq(&name_t, key) {
        return None;
    }
    let rest = slice_chars(&t, k + 1, t.len());
    assert(rest@ =~= t@.skip(k + 1));
    Some(trim_chars(&rest))
}

fn lookup_exec(ls: &Vec<Vec<char>>, key: &Vec<char>) -> (r: Option<Vec<char>>)
    ensures
        match r {
            Some(v) => lookup(view_all(ls@), key@) == Some(v@),
            None => lookup(view_all(ls@), key@) is None,
        },
{
    let mut i: usize = 0;
    assert(view_all(ls@).skip(0) =~= view_all(ls@));
    while i < ls.len()
        invariant
            i <= ls@.len(),
            lookup(view_all(ls@), key@) == lookup(view_all(ls@).skip(i as int), key@),
        decreases ls@.len() - i,
    {
        let ghost rest = view_all(ls@).skip(i as int);
        assert(rest[0] == ls@[i as int]@);
        assert(rest.drop_first() =~= view_all(ls@).skip(i + 1));
        match match_line(&ls[i], key) {
            Some(v) => {
                return Some(v);
            },
            None => {},
        }
        i = i + 1;
    }
    None
}

/// Read one key from settings text (key=value format, # starts a comment).
pub fn setting(text: &str, key: &str) -> (r: Option<String>)
    ensures
        match r {
            Some(v) => setting_spec(text@, key@) == Some(v@),
            None => setting_spec(text@, key@) is None,
        },
{
    let t = chars_of(text);
    let k = chars_of(key);
    let ls = split_lines(&t);
    match lookup_exec(&ls, &k) {
        Some(v) => Some(string_of(&v)),
        None => None,
    }
}

/// How a setting value reads as a flag: `Some(true)` for 1/true/on/yes,
/// `Some(false)` for 0/false/off/no, `None` for anything else.
pub open spec fn flag_word(v: Seq<char>) -> Option<bool> {
    if v == "1"@ || v == "true"@ || v == "on"@ || v == "yes"@ {
        Some(true)
    } else if v == "0"@ || v == "false"@ || v == "off"@ || v == "no"@ {
        Some(false)
    } else {
        None
    }
}

/// The boolean setting `key` of `text`, or `default` when absent or unreadable.
pub open spec fn setting_bool_spec(text: Seq<char>, key: Seq<char>, default: bool) -> bool {
    match setting_spec(text, key) {
        Some(v) => match flag_word(v) {
            Some(b) => b,
            None => default,
        },
        None => default,
    }
}

pub fn setting_bool(text: &str, key: &str, default: bool) -> (b: bool)
    ensures
        b == setting_bool_spec(text@, key@, default),
{
    proof {
        reveal_strlit("1");
        reveal_strlit("true");
        reveal_strlit("on");
        reveal_strlit("yes");
        reveal_strlit("0");
        reveal_strlit("false");
        reveal_strlit("off");
        reveal_strlit("no");
    }
    match setting(text, key) {
        Some(v) => {
            let s = v.as_str();
            if str_eq(s, "1") || str_eq(s, "true") || str_eq(s, "on") || str_eq(s, "yes") {
                true
            } else if str_eq(s, "0") || str_eq(s, "false") || str_eq(s, "off") || str_eq(s, "no") {
                false
            } else {
                default
            }
        },
        None => default,
    }
}

/// The positive integer setting `key` of `text`, or `default` when absent,
/// unreadable or zero.
pub open spec fn setting_usize_spec(text: Seq<char>, key: Seq<char>, default: usize) -> usize {
    match setting_spec(text, key) {
        Some(v) => match parse_unsigned(v, usize::MAX as nat) {
            Some(n) => if n > 0 {
                n as usize
            } else {
                default
            },
            None => default,
        },
        None => default,
    }
}

pub fn setting_usize(text: &str, key: &str, default: usize) -> (n: usize)
    ensures
        n == setting_usize_spec(text@, key@, default),
{
    match setting(text, key) {
        Some(v) => match crate::num::parse_usize(v.as_str()) {
            Some(n) => if n > 0 {
                n
            } else {
                default
            },
            None => default,
        },
        None => default,
    }
}

/// The line `key=value`.
pub open spec fn entry_line(key: Seq<char>, value: Seq<char>) -> Seq<char> {
    key + seq!['='] + value
}

/// A line of the file after writing `key=value`: entries for `key` are
/// replaced, everything else is kept.
pub open spec fn rewrite_line(line: Seq<char>, key: Seq<char>, value: Seq<char>) -> Seq<char> {
    if line_has_key(line, key) {
        entry_line(key, value)
    } else {
        line
    }
}

/// Whether some line of `ls` is an entry for `key`.
pub open spec fn has_entry(ls: Seq<Seq<char>>, key: Seq<char>) -> bool {
    exists|i: int| 0 <= i < ls.len() && line_has_key(#[trigger] ls[i], key)
}

/// The lines of the settings file after writing `key=value`.
pub open spec fn rewritten_lines(ls: Seq<Seq<char>>, key: Seq<char>, value: Seq<char>) -> Seq<
    Seq<char>,
> {
    let mapped = Seq::new(ls.len(), |i: int| rewrite_line(ls[i], key, value));
    if has_entry(ls, key) {
        mapped
    } else {
        mapped.push(entry_line(key, value))
    }
}

/// The text of the settings file after writing `key=value` into `text`.
pub open spec fn set_setting_spec(text: Seq<char>, key: Seq<char>, value: Seq<char>) -> Seq<
    char,
> {
    join(rewritten_lines(lines(text), key, value), seq!['\n']).push('\n')
}

/// The settings text `text` with `key` set to `value`: every entry for the
/// key is replaced by `key=value`, or that line is appended when there was
/// none. The caller writes the result back to the file.
pub fn set_setting(text: &str, key: &str, value: &str) -> (r: String)
    ensures
        r@ == set_setting_spec(text@, key@, value@),
{
    let t = chars_of(text);
    let k = chars_of(key);
    let v = chars_of(value);
    let ls = split_lines(&t);
    let mut entry: Vec<char> = Vec::new();
    append_chars(&mut entry, &k);
    entry.push('=');
    append_chars(&mut entry, &v);
    assert(entry@ =~= entry_line(k@, v@));
    let mut out: Vec<Vec<char>> = Vec::new();
    let mut found: bool = false;
    let mut i: usize = 0;
    while i < ls.len()
        invariant
            i <= ls@.len(),
            entry@ == entry_line(k@, v@),
            view_all(out@) == Seq::new(
                i as nat,
                |j: int| rewrite_line(view_all(ls@)[j], k@, v@),
            ),
            found == (exists|j: int| 0 <= j < i && line_has_key(#[trigger] view_all(ls@)[j], k@)),
        decreases ls@.len() - i,
    {
        let ghost before = view_all(out@);
        match match_line(&ls[i], &k) {
            Some(_) => {
                out.push(copy_chars(&entry));
                found = true;
            },
            None => {
                out.push(copy_chars(&ls[i]));
            },
        }
        assert(view_all(ls@)[i as int] == ls@[i as int]@);
        assert(view_all(out@) =~= before.push(rewrite_line(ls@[i as int]@, k@, v@)));
        assert(view_all(out@) =~= Seq::new(
            (i + 1) as nat,
            |j: int| rewrite_line(view_all(ls@)[j], k@, v@),
        ));
        i = i + 1;
    }
    let ghost mapped = Seq::new(
        view_all(ls@).len(),
        |j: int| rewrite_line(view_all(ls@)[j], k@, v@),
    );
    assert(view_all(out@) =~= mapped);
    if !found {
        let ghost before = view_all(out@);
        out.push(entry);
        assert(view_all(out@) =~= before.push(entry_line(k@, v@)));
    }
    let mut nl: Vec<char> = Vec::new();
    nl.push('\n');
    assert(nl@ =~= seq!['\n']);
    let mut joined = join_chars(&out, &nl);
    joined.push('\n');
    string_of(&joined)
}

/// A copy of `v`.
pub fn copy_chars(v: &Vec<char>) -> (r: Vec<char>)
    ensures
        r@ == v@,
{
    slice_chars(v, 0, v.len())
}


/// A key that `set_setting` can write and `setting` read back: no
/// surrounding whitespace, no `=` or line break in it, not a comment.
pub open spec fn writable_key(key: Seq<char>) -> bool {
    &&& trim(key) == key
    &&& forall|i: int| 0 <= i < key.len() ==> #[trigger] key[i] != '=' && key[i] != '\n'
    &&& (key.len() == 0 || key[0] != '#')
}

proof fn lemma_trim_end_shorter(s: Seq<char>)
    ensures
        trim_end(s).len() <= s.len(),
    decreases s.len(),
{
    if s.len() > 0 && is_ws(s.last()) {
        lemma_trim_end_shorter(s.drop_last());
    }
}

proof fn lemma_trimmed_ends(key: Seq<char>)
    requires
        trim(key) == key,
        key.len() > 0,
    ensures
        !is_ws(key[0]),
        !is_ws(key.last()),
{
    lemma_trim_end_shorter(trim_start(key));
    if is_ws(key[0]) {
        lemma_trim_start_shape(key.drop_first());
    }
    assert(trim_start(key) == key) by {
        lemma_trim_start_shape(key);
        if trim_start(key) != key {
            if is_ws(key[0]) {
                lemma_trim_start_shape(key.drop_first());
            }
        }
    }
    if is_ws(key.last()) {
        lemma_trim_end_shorter(key.drop_last());
    }
}

/// The line `key=value` is an entry for `key` whose value is `trim(value)`.
proof fn lemma_entry_line_reads(key: Seq<char>, value: Seq<char>)
    requires
        writable_key(key),
    ensures
        line_has_key(entry_line(key, value), key),
        line_value(entry_line(key, value)) == trim(value),
{
    let a = key + seq!['='];
    let e = entry_line(key, value);
    assert(e =~= a + value);
    if key.len() > 0 {
        lemma_trimmed_ends(key);
        assert(e[0] == key[0]);
    } else {
        assert(e[0] == '=');
    }
    assert(a.last() == '=');
    assert(trim_start(e) == e);
    lemma_trim_end_append(a, value);
    let t = trim(e);
    assert(t == a + trim_end(value));
    assert forall|m: int| 0 <= m < key.len() implies #[trigger] t[m] != '=' by {
        assert(t[m] == key[m]);
    }
    assert(t[key.len() as int] == '=');
    lemma_find_char(t, '=', key.len() as int);
    assert(t.take(key.len() as int) =~= key);
    assert(t.skip(key.len() + 1int) =~= trim_end(value));
    lemma_trim_commute(value);
    lemma_trim_end_idem(trim_start(value));
}

proof fn lemma_lookup_rewritten(ls: Seq<Seq<char>>, key: Seq<char>, value: Seq<char>)
    requires
        writable_key(key),
    ensures
        has_entry(ls, key) ==> lookup(
            Seq::new(ls.len(), |i: int| rewrite_line(ls[i], key, value)),
            key,
        ) == Some(trim(value)),
        !has_entry(ls, key) ==> lookup(
            Seq::new(ls.len(), |i: int| rewrite_line(ls[i], key, value)).push(
                entry_line(key, value),
            ),
            key,
        ) == Some(trim(value)),
    decreases ls.len(),
{
    lemma_entry_line_reads(key, value);
    let mapped = Seq::new(ls.len(), |i: int| rewrite_line(ls[i], key, value));
    if ls.len() == 0 {
        assert(mapped.push(entry_line(key, value)) =~= seq![entry_line(key, value)]);
    } else {
        let rest = ls.drop_first();
        let mrest = Seq::new(rest.len(), |i: int| rewrite_line(rest[i], key, value));
        assert(mapped.drop_first() =~= mrest);
        assert(mapped.push(entry_line(key, value)).drop_first() =~= mrest.push(
            entry_line(key, value),
        ));
        lemma_lookup_rewritten(rest, key, value);
        if !line_has_key(ls[0], key) {
            assert(mapped[0] == ls[0]);
            assert(has_entry(ls, key) == has_entry(rest, key)) by {
                if has_entry(ls, key) {
                    let i = choose|i: int| 0 <= i < ls.len() && line_has_key(#[trigger] ls[i], key);
                    assert(rest[i - 1] == ls[i]);
                }
                if has_entry(rest, key) {
                    let i = choose|i: int|
                        0 <= i < rest.len() && line_has_key(#[trigger] rest[i], key);
                    assert(ls[i + 1] == rest[i]);
                }
            }
        } else {
            assert(has_entry(ls, key));
        }
    }
}

proof fn lemma_lookup_strip(ls: Seq<Seq<char>>, key: Seq<char>)
    ensures
        lookup(Seq::new(ls.len(), |i: int| strip_cr(ls[i])), key) == lookup(ls, key),
    decreases ls.len(),
{
    if ls.len() > 0 {
        let st = Seq::new(ls.len(), |i: int| strip_cr(ls[i]));
        lemma_trim_strip_cr(ls[0]);
        assert(st[0] == strip_cr(ls[0]));
        let rest = ls.drop_first();
        assert(st.drop_first() =~= Seq::new(rest.len(), |i: int| strip_cr(rest[i])));
        lemma_lookup_strip(rest, key);
    }
}

proof fn lemma_lines_single(s: Seq<char>)
    ensures
        single_lines(lines(s)),
    decreases s.len(),
{
    if s.len() > 0 {
        let k = find_char(s, '\n');
        lemma_find_char_bounds(s, '\n');
        if k < s.len() {
            let rest = s.subrange(k + 1, s.len() as int);
            lemma_lines_single(rest);
            let first = strip_cr(s.subrange(0, k));
            let ls = lines(s);
            assert(ls == seq![first] + lines(rest));
            assert forall|i: int, j: int| 0 <= i < ls.len() && 0 <= j < ls[i].len() implies #[trigger] ls[i][j]
                != '\n' by {
                if i == 0 {
                    assert(first[j] == s[j]);
                } else {
                    assert(ls[i] == lines(rest)[i - 1]);
                }
            }
        }
    }
}

/// What `setting` reads back after `set_setting` wrote `key=value` is the
/// trimmed `value`, for any settings text and any key that can be written
/// as a line.
pub proof fn lemma_setting_after_set(text: Seq<char>, key: Seq<char>, value: Seq<char>)
    requires
        writable_key(key),
        forall|i: int| 0 <= i < value.len() ==> #[trigger] value[i] != '\n',
    ensures
        setting_spec(set_setting_spec(text, key, value), key) == Some(trim(value)),
{
    let ls = lines(text);
    let r = rewritten_lines(ls, key, value);
    lemma_lookup_rewritten(ls, key, value);
    lemma_lines_single(text);
    let e = entry_line(key, value);
    assert forall|j: int| 0 <= j < e.len() implies #[trigger] e[j] != '\n' by {
        if j < key.len() {
            assert(e[j] == key[j]);
        } else if j > key.len() {
            assert(e[j] == value[j - key.len() - 1]);
        }
    }
    assert(single_lines(r)) by {
        assert forall|i: int, j: int| 0 <= i < r.len() && 0 <= j < r[i].len() implies #[trigger] r[i][j]
            != '\n' by {
            if i < ls.len() {
                if line_has_key(ls[i], key) {
                    assert(r[i] == e);
                } else {
                    assert(r[i] == ls[i]);
                }
            } else {
                assert(r[i] == e);
            }
        }
    }
    if has_entry(ls, key) {
        let i = choose|i: int| 0 <= i < ls.len() && line_has_key(#[trigger] ls[i], key);
        assert(r.len() >= 1);
    }
    lemma_lines_of_joined(r);
    lemma_lookup_strip(r, key);
}
proof fn lemma_lookup_rewritten_other(ls: Seq<Seq<char>>, key: Seq<char>, value: Seq<char>, other: Seq<char>)
    requires
        writable_key(key),
        other != key,
    ensures
        lookup(Seq::new(ls.len(), |i: int| rewrite_line(ls[i], key, value)), other) == lookup(ls, other),
        lookup(Seq::new(ls.len(), |i: int| rewrite_line(ls[i], key, value)).push(entry_line(key, value)), other)
            == lookup(ls, other),
    decreases ls.len(),
{
    lemma_entry_line_reads(key, value);
    let e = entry_line(key, value);
    assert(!line_has_key(e, other));
    let mapped = Seq::new(ls.len(), |i: int| rewrite_line(ls[i], key, value));
    if ls.len() == 0 {
        assert(mapped.push(e) =~= seq![e]);
        assert(seq![e].drop_first() =~= Seq::<Seq<char>>::empty());
        assert(seq![e][0] == e);
        assert(lookup(seq![e], other) == lookup(seq![e].drop_first(), other));
    } else {
        let rest = ls.drop_first();
        let mrest = Seq::new(rest.len(), |i: int| rewrite_line(rest[i], key, value));
        assert(mapped.drop_first() =~= mrest);
        assert(mapped.push(e).drop_first() =~= mrest.push(e));
        assert(mapped.push(e)[0] == mapped[0]);
        lemma_lookup_rewritten_other(rest, key, value, other);
        if line_has_key(ls[0], key) {
            assert(mapped[0] == e);
            assert(!line_has_key(ls[0], other));
        } else {
            assert(mapped[0] == ls[0]);
        }
    }
}

/// Writing `key` leaves every other setting as it was.
pub proof fn lemma_setting_other_keys(text: Seq<char>, key: Seq<char>, value: Seq<char>, other: Seq<char>)
    requires
        writable_key(key),
        forall|i: int| 0 <= i < value.len() ==> #[trigger] value[i] != '\n',
        other != key,
    ensures
        setting_spec(set_setting_spec(text, key, value), other) == setting_spec(text, other),
{
    let ls = lines(text);
    let r = rewritten_lines(ls, key, value);
    lemma_lookup_rewritten_other(ls, key, value, other);
    lemma_lines_single(text);
    let e = entry_line(key, value);
    assert forall|j: int| 0 <= j < e.len() implies #[trigger] e[j] != '\n' by {
        if j < key.len() {
            assert(e[j] == key[j]);
        } else if j > key.len() {
            assert(e[j] == value[j - key.len() - 1]);
        }
    }
    assert(single_lines(r)) by {
        assert forall|i: int, j: int| 0 <= i < r.len() && 0 <= j < r[i].len() implies #[trigger] r[i][j]
            != '\n' by {
            if i < ls.len() {
                if line_has_key(ls[i], key) {
                    assert(r[i] == e);
                } else {
                    assert(r[i] == ls[i]);
                }
            } else {
                assert(r[i] == e);
            }
        }
    }
    if r.len() == 0 {
        assert(ls.len() == 0);
        assert(!has_entry(ls, key));
    }
    assert(r.len() >= 1);
    lemma_lines_of_joined(r);
    lemma_lookup_strip(r, other);
}

} // verus!
