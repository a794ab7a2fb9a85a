//! Character-level text handling: whitespace, trimming, line splitting and
//! word splitting, with the meaning `str` gives them.
use vstd::prelude::*;
use vstd::std_specs::iter::IteratorSpec;

verus! {

/// `String::push` appends one character.
pub assume_specification[ String::push ](s: &mut String, ch: char)
    ensures
        final(s)@ == old(s)@.push(ch),
;

/// The characters of `s`, in order.
pub fn chars_of(s: &str) -> (v: Vec<char>)
    ensures
        v@ == s@,
{
    broadcast use vstd::string::group_string_axioms;
    let mut v: Vec<char> = Vec::new();
    let mut it = s.chars();
    let ghost all = it.remaining();
    loop
        invariant
            all == s@,
            v@ + it.remaining() == all,
            it.decrease() is Some,
        decreases it.decrease()->0,
    {
        match it.next() {
            Some(c) => {
                v.push(c);
                assert(v@ + it.remaining() =~= all);
            }
            None => {
                assert(v@ =~= all);
                return v;
            }
        }
    }
}

/// A `String` holding exactly the characters of `v`.
pub fn string_of(v: &Vec<char>) -> (s: String)
    ensures
        s@ == v@,
{
    let mut out = String::new();
    let mut i: usize = 0;
    while i < v.len()
        invariant
            i <= v@.len(),
            out@ == v@.take(i as int),
        decreases v@.len() - i,
    {
        out.push(v[i]);
        assert(v@.take(i + 1) =~= v@.take(i as int).push(v@[i as int]));
        i = i + 1;
    }
    assert(v@.take(v@.len() as int) =~= v@);
    out
}

/// Unicode White_Space, the property behind `char::is_whitespace`.
pub open spec fn is_ws(c: char) -> bool {
    let u = c as u32;
    ||| 0x09 <= u <= 0x0d
    ||| u == 0x20
    ||| u == 0x85
    ||| u == 0xa0
    ||| u == 0x1680
    ||| 0x2000 <= u <= 0x200a
    ||| u == 0x2028
    ||| u == 0x2029
    ||| u == 0x202f
    ||| u == 0x205f
    ||| u == 0x3000
}

pub fn is_whitespace(c: char) -> (b: bool)
    ensures
        b == is_ws(c),
{
    let u: u32 = c as u32;
    (0x09 <= u && u <= 0x0d) || u == 0x20 || u == 0x85 || u == 0xa0 || u == 0x1680 || (0x2000 <= u
        && u <= 0x200a) || u == 0x2028 || u == 0x2029 || u == 0x202f || u == 0x205f || u == 0x3000
}

/// `s` without its leading whitespace.
pub open spec fn trim_start(s: Seq<char>) -> Seq<char>
    decreases s.len(),
{
    if s.len() > 0 && is_ws(s[0]) {
        trim_start(s.drop_first())
    } else {
        s
    }
}

/// `s` without its trailing whitespace.
pub open spec fn trim_end(s: Seq<char>) -> Seq<char>
    decreases s.len(),
{
    if s.len() > 0 && is_ws(s.last()) {
        trim_end(s.drop_last())
    } else {
        s
    }
}

/// `s` without leading and trailing whitespace, as `str::trim` gives it.
pub open spec fn trim(s: Seq<char>) -> Seq<char> {
    trim_end(trim_start(s))
}

proof fn lemma_trim_start_skip(s: Seq<char>, i: int)
    requires
        0 <= i <= s.len(),
        forall|k: int| 0 <= k < i ==> is_ws(#[trigger] s[k]),
    ensures
        trim_start(s) == trim_start(s.subrange(i, s.len() as int)),
    decreases i,
{
    if i > 0 {
        assert(s.drop_first().subrange(i - 1, s.drop_first().len() as int) =~= s.subrange(
            i,
            s.len() as int,
        ));
        lemma_trim_start_skip(s.drop_first(), i - 1);
    } else {
        assert(s.subrange(0, s.len() as int) =~= s);
    }
}

proof fn lemma_trim_end_skip(s: Seq<char>, j: int)
    requires
        0 <= j <= s.len(),
        forall|k: int| j <= k < s.len() ==> is_ws(#[trigger] s[k]),
    ensures
        trim_end(s) == trim_end(s.subrange(0, j)),
    decreases s.len() - j,
{
    if j < s.len() {
        assert(s.drop_last().subrange(0, j) =~= s.subrange(0, j));
        lemma_trim_end_skip(s.drop_last(), j);
    } else {
        assert(s.subrange(0, j) =~= s);
    }
}

/// Index range `[start, end)` of `s` that `trim` keeps.
pub fn trim_bounds(s: &Vec<char>) -> (r: (usize, usize))
    ensures
        r.0 <= r.1 <= s@.len(),
        s@.subrange(r.0 as int, r.1 as int) == trim(s@),
{
    let n: usize = s.len();
    let mut i: usize = 0;
    while i < n && is_whitespace(s[i])
        invariant
            i <= n == s@.len(),
            forall|k: int| 0 <= k < i ==> is_ws(#[trigger] s@[k]),
        decreases n - i,
    {
        i = i + 1;
    }
    proof {
        lemma_trim_start_skip(s@, i as int);
    }
    let ghost t = s@.subrange(i as int, n as int);
    assert(trim_start(s@) == t) by {
        if i < n {
            assert(!is_ws(t[0]));
        }
    }
    let mut j: usize = n;
    while j > i && is_whitespace(s[j - 1])
        invariant
            i <= j <= n == s@.len(),
            t == s@.subrange(i as int, n as int),
            forall|k: int| j <= k < n ==> is_ws(#[trigger] s@[k]),
        decreases j,
    {
        j = j - 1;
    }
    proof {
        assert forall|k: int| j - i <= k < t.len() implies is_ws(#[trigger] t[k]) by {
            assert(t[k] == s@[k + i]);
        }
        lemma_trim_end_skip(t, j - i);
        let u = t.subrange(0, j - i);
        assert(u =~= s@.subrange(i as int, j as int));
        if j > i {
            assert(!is_ws(u.last()));
        }
    }
    (i, j)
}

/// The characters of `s` in `[from, to)`.
pub fn slice_chars(s: &Vec<char>, from: usize, to: usize) -> (r: Vec<char>)
    requires
        from <= to <= s@.len(),
    ensures
        r@ == s@.subrange(from as int, to as int),
{
    let mut r: Vec<char> = Vec::new();
    let mut k: usize = from;
    while k < to
        invariant
            from <= k <= to <= s@.len(),
            r@ == s@.subrange(from as int, k as int),
        decreases to - k,
    {
        r.push(s[k]);
        assert(r@ =~= s@.subrange(from as int, k + 1));
        k = k + 1;
    }
    r
}

/// `s` with leading and trailing whitespace removed.
pub fn trim_chars(s: &Vec<char>) -> (r: Vec<char>)
    ensures
        r@ == trim(s@),
{
    let (a, b) = trim_bounds(s);
    slice_chars(s, a, b)
}

/// Index of the first `c` in `s`, or `s.len()` when there is none.
pub open spec fn find_char(s: Seq<char>, c: char) -> int
    decreases s.len(),
{
    if s.len() == 0 {
        0
    } else if s[0] == c {
        0
    } else {
        1 + find_char(s.drop_first(), c)
    }
}

pub proof fn lemma_find_char_bounds(s: Seq<char>, c: char)
    ensures
        0 <= find_char(s, c) <= s.len(),
        find_char(s, c) < s.len() ==> s[find_char(s, c)] == c,
        forall|m: int| 0 <= m < find_char(s, c) ==> #[trigger] s[m] != c,
    decreases s.len(),
{
    if s.len() > 0 && s[0] != c {
        lemma_find_char_bounds(s.drop_first(), c);
        assert forall|m: int| 0 <= m < find_char(s, c) implies #[trigger] s[m] != c by {
            if m > 0 {
                assert(s[m] == s.drop_first()[m - 1]);
            }
        }
    }
}

pub proof fn lemma_find_char(s: Seq<char>, c: char, k: int)
    requires
        0 <= k <= s.len(),
        forall|m: int| 0 <= m < k ==> #[trigger] s[m] != c,
        k == s.len() || s[k] == c,
    ensures
        find_char(s, c) == k,
    decreases k,
{
    if k > 0 {
        lemma_find_char(s.drop_first(), c, k - 1);
    }
}

/// A line with the `\r` of a `\r\n` ending removed.
pub open spec fn strip_cr(line: Seq<char>) -> Seq<char> {
    if line.len() > 0 && line.last() == '\r' {
        line.drop_last()
    } else {
        line
    }
}

/// The lines of `s`, as `str::lines` yields them: split after each `\n`,
/// a `\r` right before that `\n` dropped, no empty line after a final `\n`.
pub open spec fn lines(s: Seq<char>) -> Seq<Seq<char>>
    decreases s.len(),
{
    if s.len() == 0 {
        seq![]
    } else {
        let k = find_char(s, '\n');
        proof {
            lemma_find_char_bounds(s, '\n');
        }
        if k >= s.len() {
            seq![s]
        } else {
            seq![strip_cr(s.subrange(0, k))] + lines(s.subrange(k + 1, s.len() as int))
        }
    }
}

fn strip_cr_exec(line: Vec<char>) -> (r: Vec<char>)
    ensures
        r@ == strip_cr(line@),
{
    let ghost orig = line@;
    let mut line = line;
    let n: usize = line.len();
    if n > 0 && line[n - 1] == '\r' {
        line.pop();
        assert(line@ =~= orig.drop_last());
    }
    line
}

/// The views of a sequence of character vectors.
pub open spec fn view_all(v: Seq<Vec<char>>) -> Seq<Seq<char>> {
    Seq::new(v.len(), |i: int| v[i]@)
}

/// The views of a sequence of strings.
pub open spec fn view_all_strings(v: Seq<String>) -> Seq<Seq<char>> {
    Seq::new(v.len(), |i: int| v[i]@)
}

/// The lines of `s`.
pub fn split_lines(s: &Vec<char>) -> (r: Vec<Vec<char>>)
    ensures
        view_all(r@) == lines(s@),
{
    let n: usize = s.len();
    let mut out: Vec<Vec<char>> = Vec::new();
    let mut cur: Vec<char> = Vec::new();
    let mut start: usize = 0;
    let mut i: usize = 0;
    assert(s@.subrange(0, n as int) =~= s@);
    assert(view_all(out@) + lines(s@) =~= lines(s@));
    while i < n
        invariant
            start <= i <= n == s@.len(),
            cur@ == s@.subrange(start as int, i as int),
            forall|m: int| start <= m < i ==> #[trigger] s@[m] != '\n',
            view_all(out@) + lines(s@.subrange(start as int, n as int)) == lines(s@),
        decreases n - i,
    {
        if s[i] == '\n' {
            let ghost rest = s@.subrange(start as int, n as int);
            proof {
                assert forall|m: int| 0 <= m < i - start implies #[trigger] rest[m] != '\n' by {
                    assert(rest[m] == s@[m + start]);
                }
                lemma_find_char(rest, '\n', i - start);
                assert(rest.subrange(0, i - start) =~= cur@);
                assert(rest.subrange(i - start + 1, rest.len() as int) =~= s@.subrange(
                    i + 1,
                    n as int,
                ));
            }
            let line = strip_cr_exec(cur);
            let ghost before = view_all(out@);
            out.push(line);
            proof {
                assert(view_all(out@) =~= before.push(strip_cr(rest.subrange(0, i - start))));
                assert(lines(rest) == seq![strip_cr(rest.subrange(0, i - start))] + lines(
                    s@.subrange(i + 1, n as int),
                ));
                assert(view_all(out@) + lines(s@.subrange(i + 1, n as int)) =~= before + lines(
                    rest,
                ));
            }
            cur = Vec::new();
            start = i + 1;
            assert(cur@ =~= s@.subrange(start as int, start as int));
        } else {
            cur.push(s[i]);
            assert(cur@ =~= s@.subrange(start as int, i + 1));
        }
        i = i + 1;
    }
    let ghost rest = s@.subrange(start as int, n as int);
    if start < n {
        proof {
            assert forall|m: int| 0 <= m < rest.len() implies #[trigger] rest[m] != '\n' by {
                assert(rest[m] == s@[m + start]);
            }
            lemma_find_char(rest, '\n', rest.len() as int);
        }
        let ghost before = view_all(out@);
        out.push(cur);
        assert(view_all(out@) =~= before + lines(rest));
    } else {
        assert(view_all(out@) =~= view_all(out@) + lines(rest));
    }
    out
}


/// Index of the first whitespace character of `s`, or `s.len()`.
pub open spec fn find_ws(s: Seq<char>) -> int
    decreases s.len(),
{
    if s.len() == 0 {
        0
    } else if is_ws(s[0]) {
        0
    } else {
        1 + find_ws(s.drop_first())
    }
}

proof fn lemma_find_ws(s: Seq<char>, k: int)
    requires
        0 <= k <= s.len(),
        forall|m: int| 0 <= m < k ==> !is_ws(#[trigger] s[m]),
        k == s.len() || is_ws(s[k]),
    ensures
        find_ws(s) == k,
    decreases k,
{
    if k > 0 {
        lemma_find_ws(s.drop_first(), k - 1);
    }
}

pub proof fn lemma_find_ws_bounds(s: Seq<char>)
    ensures
        0 <= find_ws(s) <= s.len(),
        s.len() > 0 && !is_ws(s[0]) ==> find_ws(s) >= 1,
    decreases s.len(),
{
    if s.len() > 0 && !is_ws(s[0]) {
        lemma_find_ws_bounds(s.drop_first());
    }
}

pub proof fn lemma_trim_start_shape(s: Seq<char>)
    ensures
        trim_start(s).len() <= s.len(),
        trim_start(s).len() > 0 ==> !is_ws(trim_start(s)[0]),
    decreases s.len(),
{
    if s.len() > 0 && is_ws(s[0]) {
        lemma_trim_start_shape(s.drop_first());
    }
}

/// The whitespace-separated words of `s`, as `str::split_whitespace` yields them.
pub open spec fn words(s: Seq<char>) -> Seq<Seq<char>>
    decreases s.len(),
{
    let t = trim_start(s);
    proof {
        lemma_trim_start_shape(s);
        lemma_find_ws_bounds(t);
    }
    if t.len() == 0 {
        seq![]
    } else {
        let k = find_ws(t);
        seq![t.subrange(0, k)] + words(t.subrange(k, t.len() as int))
    }
}

/// The words of `s`.
pub fn split_words(s: &Vec<char>) -> (r: Vec<Vec<char>>)
    ensures
        view_all(r@) == words(s@),
{
    let n: usize = s.len();
    let mut out: Vec<Vec<char>> = Vec::new();
    let mut i: usize = 0;
    assert(s@.subrange(0, n as int) =~= s@);
    assert(view_all(out@) + words(s@) =~= words(s@));
    while i < n
        invariant
            i <= n == s@.len(),
            view_all(out@) + words(s@.subrange(i as int, n as int)) == words(s@),
        decreases n - i,
    {
        let ghost rest = s@.subrange(i as int, n as int);
        let mut j: usize = i;
        while j < n && is_whitespace(s[j])
            invariant
                i <= j <= n == s@.len(),
                forall|m: int| i <= m < j ==> is_ws(#[trigger] s@[m]),
            decreases n - j,
        {
            j = j + 1;
        }
        proof {
            assert forall|m: int| 0 <= m < j - i implies is_ws(#[trigger] rest[m]) by {
                assert(rest[m] == s@[m + i]);
            }
            lemma_trim_start_skip(rest, j - i);
            assert(rest.subrange(j - i, rest.len() as int) =~= s@.subrange(j as int, n as int));
        }
        let ghost t = s@.subrange(j as int, n as int);
        if j == n {
            assert(trim_start(rest).len() == 0);
            assert(view_all(out@) + words(t) =~= view_all(out@));
            i = j;
        } else {
            assert(trim_start(t) == t);
            let mut k: usize = j;
            while k < n && !is_whitespace(s[k])
                invariant
                    j <= k <= n == s@.len(),
                    forall|m: int| j <= m < k ==> !is_ws(#[trigger] s@[m]),
                decreases n - k,
            {
                k = k + 1;
            }
            proof {
                assert forall|m: int| 0 <= m < k - j implies !is_ws(#[trigger] t[m]) by {
                    assert(t[m] == s@[m + j]);
                }
                if k < n {
                    assert(t[k - j] == s@[k as int]);
                }
                lemma_find_ws(t, k - j);
                assert(t.subrange(0, k - j) =~= s@.subrange(j as int, k as int));
                assert(t.subrange(k - j, t.len() as int) =~= s@.subrange(k as int, n as int));
            }
            let w = slice_chars(s, j, k);
            let ghost before = view_all(out@);
            out.push(w);
            assert(view_all(out@) =~= before.push(s@.subrange(j as int, k as int)));
            assert(view_all(out@) + words(s@.subrange(k as int, n as int)) =~= before + words(
                rest,
            ));
            i = k;
        }
    }
    assert(view_all(out@) + words(s@.subrange(n as int, n as int)) =~= view_all(out@)) by {
        assert(trim_start(s@.subrange(n as int, n as int)).len() == 0) by {
            lemma_trim_start_shape(s@.subrange(n as int, n as int));
        }
    }
    out
}

/// `parts` joined with `sep` between consecutive parts.
pub open spec fn join(parts: Seq<Seq<char>>, sep: Seq<char>) -> Seq<char>
    decreases parts.len(),
{
    if parts.len() == 0 {
        seq![]
    } else if parts.len() == 1 {
        parts[0]
    } else {
        join(parts.drop_last(), sep) + sep + parts.last()
    }
}

/// The characters of `parts` joined with `sep`.
pub fn join_chars(parts: &Vec<Vec<char>>, sep: &Vec<char>) -> (r: Vec<char>)
    ensures
        r@ == join(view_all(parts@), sep@),
{
    let mut out: Vec<char> = Vec::new();
    let mut i: usize = 0;
    while i < parts.len()
        invariant
            i <= parts@.len(),
            out@ == join(view_all(parts@).take(i as int), sep@),
        decreases parts@.len() - i,
    {
        let ghost prefix = view_all(parts@).take(i as int);
        let ghost next = view_all(parts@).take(i + 1);
        assert(next.drop_last() =~= prefix);
        if i > 0 {
            append_chars(&mut out, sep);
        }
        append_chars(&mut out, &parts[i]);
        assert(out@ =~= join(next, sep@));
        i = i + 1;
    }
    assert(view_all(parts@).take(parts@.len() as int) =~= view_all(parts@));
    out
}

/// Appends the characters of `more` to `out`.
pub fn append_chars(out: &mut Vec<char>, more: &Vec<char>)
    ensures
        final(out)@ == old(out)@ + more@,
{
    let mut k: usize = 0;
    while k < more.len()
        invariant
            k <= more@.len(),
            out@ == old(out)@ + more@.take(k as int),
        decreases more@.len() - k,
    {
        out.push(more[k]);
        assert(more@.take(k + 1) =~= more@.take(k as int).push(more@[k as int]));
        assert(out@ =~= old(out)@ + more@.take(k + 1));
        k = k + 1;
    }
    assert(more@.take(more@.len() as int) =~= more@);
}

/// The ellipsis that marks a shortened text.
pub open spec fn ellipsis() -> char {
    '\u{2026}'
}

/// `s` cut to at most `width` characters, the last one an ellipsis when cut.
pub open spec fn truncated(s: Seq<char>, width: nat) -> Seq<char> {
    if s.len() <= width {
        s
    } else {
        let keep = if width == 0 { 0 } else { width - 1 };
        s.take(keep as int).push(ellipsis())
    }
}

pub fn truncate_chars(s: &Vec<char>, width: usize) -> (r: Vec<char>)
    ensures
        r@ == truncated(s@, width as nat),
{
    if s.len() <= width {
        slice_chars(s, 0, s.len())
    } else {
        let keep: usize = if width == 0 { 0 } else { width - 1 };
        let mut r = slice_chars(s, 0, keep);
        r.push('\u{2026}');
        r
    }
}

/// Whether `a` and `b` hold the same characters.
pub fn chars_eq(a: &Vec<char>, b: &Vec<char>) -> (r: bool)
    ensures
        r == (a@ == b@),
{
    if a.len() != b.len() {
        return false;
    }
    let mut i: usize = 0;
    while i < a.len()
        invariant
            i <= a@.len() == b@.len(),
            forall|k: int| 0 <= k < i ==> a@[k] == b@[k],
        decreases a@.len() - i,
    {
        if a[i] != b[i] {
            return false;
        }
        i = i + 1;
    }
    assert(a@ =~= b@);
    true
}

/// Whether `a` and `b` hold the same text.
pub fn str_eq(a: &str, b: &str) -> (r: bool)
    ensures
        r == (a@ == b@),
{
    let x = chars_of(a);
    let y = chars_of(b);
    chars_eq(&x, &y)
}

/// Whether `s` begins with `prefix`.
pub open spec fn starts_with(s: Seq<char>, prefix: Seq<char>) -> bool {
    prefix.len() <= s.len() && s.take(prefix.len() as int) == prefix
}

pub fn starts_with_chars(s: &Vec<char>, prefix: &Vec<char>) -> (r: bool)
    ensures
        r == starts_with(s@, prefix@),
{
    if prefix.len() > s.len() {
        return false;
    }
    let mut i: usize = 0;
    while i < prefix.len()
        invariant
            i <= prefix@.len() <= s@.len(),
            forall|k: int| 0 <= k < i ==> s@[k] == prefix@[k],
        decreases prefix@.len() - i,
    {
        if s[i] != prefix[i] {
            assert(s@.take(prefix@.len() as int)[i as int] != prefix@[i as int]);
            return false;
        }
        i = i + 1;
    }
    assert(s@.take(prefix@.len() as int) =~= prefix@);
    true
}

/// Whether `needle` occurs in `hay` starting at position `at`.
pub open spec fn occurs_at(hay: Seq<char>, needle: Seq<char>, at: int) -> bool {
    0 <= at && at + needle.len() <= hay.len() && hay.subrange(at, at + needle.len()) == needle
}

/// Whether `needle` occurs in `hay`, as `str::contains` tells it.
pub open spec fn contains(hay: Seq<char>, needle: Seq<char>) -> bool {
    exists|at: int| occurs_at(hay, needle, at)
}

pub fn contains_chars(hay: &Vec<char>, needle: &Vec<char>) -> (r: bool)
    ensures
        r == contains(hay@, needle@),
{
    if needle.len() > hay.len() {
        assert forall|at: int| !occurs_at(hay@, needle@, at) by {}
        return false;
    }
    let hn: usize = hay.len();
    let last: usize = hn - needle.len();
    let mut at: usize = 0;
    while at <= last
        invariant
            hn == hay@.len(),
            last + needle@.len() == hay@.len(),
            at <= last + 1,
            forall|b: int| 0 <= b < at ==> !occurs_at(hay@, needle@, b),
        decreases last + 1 - at,
    {
        let mut k: usize = 0;
        let mut same: bool = true;
        while k < needle.len()
            invariant
                k <= needle@.len(),
                at <= last,
                hn == hay@.len(),
                last + needle@.len() == hay@.len(),
                same == (forall|m: int| 0 <= m < k ==> hay@[at + m] == needle@[m]),
            decreases needle@.len() - k,
        {
            assert(at + k < hn);
            if hay[at + k] != needle[k] {
                same = false;
            }
            k = k + 1;
        }
        if same {
            assert(hay@.subrange(at as int, at + needle@.len()) =~= needle@);
            assert(occurs_at(hay@, needle@, at as int));
            return true;
        }
        assert(!occurs_at(hay@, needle@, at as int)) by {
            let m = choose|m: int| 0 <= m < needle@.len() && hay@[at + m] != needle@[m];
            if hay@.subrange(at as int, at + needle@.len()) == needle@ {
                assert(hay@.subrange(at as int, at + needle@.len())[m] == hay@[at + m]);
            }
        }
        if at == last {
            assert forall|b: int| !occurs_at(hay@, needle@, b) by {
                if 0 <= b < at {
                }
            }
            return false;
        }
        at = at + 1;
    }
    false
}


pub proof fn lemma_trim_start_push(x: Seq<char>, c: char)
    ensures
        trim_start(x.push(c)) == (if trim_start(x).len() > 0 {
            trim_start(x).push(c)
        } else {
            trim_start(seq![c])
        }),
    decreases x.len(),
{
    if x.len() > 0 {
        assert(x.push(c).drop_first() =~= x.drop_first().push(c));
        assert(x.push(c)[0] == x[0]);
        if is_ws(x[0]) {
            lemma_trim_start_push(x.drop_first(), c);
        }
    } else {
        assert(x.push(c) =~= seq![c]);
    }
}

pub proof fn lemma_trim_end_cons(c: char, w: Seq<char>)
    ensures
        trim_end(seq![c] + w) == (if trim_end(w).len() > 0 {
            seq![c] + trim_end(w)
        } else {
            trim_end(seq![c])
        }),
    decreases w.len(),
{
    if w.len() > 0 {
        let v = seq![c] + w;
        assert(v.last() == w.last());
        assert(v.drop_last() =~= seq![c] + w.drop_last());
        if is_ws(w.last()) {
            lemma_trim_end_cons(c, w.drop_last());
        }
    } else {
        assert(seq![c] + w =~= seq![c]);
    }
}

pub proof fn lemma_trim_end_append(a: Seq<char>, b: Seq<char>)
    requires
        a.len() > 0,
        !is_ws(a.last()),
    ensures
        trim_end(a + b) == a + trim_end(b),
    decreases b.len(),
{
    if b.len() > 0 {
        assert((a + b).last() == b.last());
        assert((a + b).drop_last() =~= a + b.drop_last());
        if is_ws(b.last()) {
            lemma_trim_end_append(a, b.drop_last());
        } else {
            assert(trim_end(b) == b);
        }
    } else {
        assert(a + b =~= a);
        assert(a + trim_end(b) =~= a);
    }
}

pub proof fn lemma_trim_end_idem(v: Seq<char>)
    ensures
        trim_end(trim_end(v)) == trim_end(v),
    decreases v.len(),
{
    if v.len() > 0 && is_ws(v.last()) {
        lemma_trim_end_idem(v.drop_last());
    }
}

pub proof fn lemma_trim_commute(v: Seq<char>)
    ensures
        trim_start(trim_end(v)) == trim_end(trim_start(v)),
    decreases v.len(),
{
    if v.len() > 0 {
        let c = v[0];
        let w = v.drop_first();
        assert(v =~= seq![c] + w);
        lemma_trim_end_cons(c, w);
        if is_ws(c) {
            lemma_trim_commute(w);
            if trim_end(w).len() > 0 {
                let u = seq![c] + trim_end(w);
                assert(u.drop_first() =~= trim_end(w));
            } else {
                assert(trim_end(seq![c]) == trim_end(seq![c].drop_last()));
                assert(seq![c].drop_last() =~= Seq::<char>::empty());
            }
        } else {
            if trim_end(w).len() > 0 {
                assert((seq![c] + trim_end(w))[0] == c);
            } else {
                assert(trim_end(seq![c]) == seq![c]);
            }
        }
    }
}

/// Trimming ignores a trailing whitespace character.
pub proof fn lemma_trim_push_ws(x: Seq<char>, w: char)
    requires
        is_ws(w),
    ensures
        trim(x.push(w)) == trim(x),
{
    lemma_trim_start_push(x, w);
    if trim_start(x).len() > 0 {
        assert(trim_start(x).push(w).drop_last() =~= trim_start(x));
    } else {
        assert(seq![w].drop_first() =~= Seq::<char>::empty());
        assert(trim_start(seq![w]) == trim_start(seq![w].drop_first()));
    }
}

/// A line read back after its `\r\n` ending trims to the same text.
pub proof fn lemma_trim_strip_cr(line: Seq<char>)
    ensures
        trim(strip_cr(line)) == trim(line),
{
    if line.len() > 0 && line.last() == '\r' {
        assert(line =~= line.drop_last().push('\r'));
        lemma_trim_push_ws(line.drop_last(), '\r');
    }
}

/// The first `\n` of `a + "\n" + b`, when `a` has none, ends `a`.
pub proof fn lemma_lines_cons(a: Seq<char>, b: Seq<char>)
    requires
        forall|i: int| 0 <= i < a.len() ==> #[trigger] a[i] != '\n',
    ensures
        lines(a + seq!['\n'] + b) == seq![strip_cr(a)] + lines(b),
{
    let s = a + seq!['\n'] + b;
    assert forall|m: int| 0 <= m < a.len() implies #[trigger] s[m] != '\n' by {
        assert(s[m] == a[m]);
    }
    lemma_find_char(s, '\n', a.len() as int);
    assert(s.subrange(0, a.len() as int) =~= a);
    assert(s.subrange(a.len() + 1int, s.len() as int) =~= b);
}

/// Whether no element of `ls` holds a `\n`.
pub open spec fn single_lines(ls: Seq<Seq<char>>) -> bool {
    forall|i: int, j: int| 0 <= i < ls.len() && 0 <= j < ls[i].len() ==> #[trigger] ls[i][j] != '\n'
}

pub proof fn lemma_join_front(ls: Seq<Seq<char>>, sep: Seq<char>)
    requires
        ls.len() >= 2,
    ensures
        join(ls, sep) == ls[0] + sep + join(ls.drop_first(), sep),
    decreases ls.len(),
{
    if ls.len() == 2 {
        assert(ls.drop_last() =~= seq![ls[0]]);
        assert(ls.drop_first() =~= seq![ls[1]]);
        assert(join(ls.drop_first(), sep) == ls[1]);
        assert(join(ls.drop_last(), sep) == ls[0]);
        assert(ls.last() == ls[1]);
    } else {
        lemma_join_front(ls.drop_last(), sep);
        assert(ls.drop_last().drop_first() =~= ls.drop_first().drop_last());
        assert(ls.drop_first().last() == ls.last());
        assert(ls.drop_last()[0] == ls[0]);
        let m = join(ls.drop_first().drop_last(), sep);
        assert(join(ls.drop_first(), sep) == m + sep + ls.last());
        assert(join(ls, sep) == (ls[0] + sep + m) + sep + ls.last());
        assert((ls[0] + sep + m) + sep + ls.last() =~= ls[0] + sep + (m + sep + ls.last()));
    }
}

/// Lines written out one per `\n`-terminated line read back as themselves
/// (up to the `\r` of a `\r\n` ending).
pub proof fn lemma_lines_of_joined(ls: Seq<Seq<char>>)
    requires
        ls.len() >= 1,
        single_lines(ls),
    ensures
        lines(join(ls, seq!['\n']).push('\n')) == Seq::new(ls.len(), |i: int| strip_cr(ls[i])),
    decreases ls.len(),
{
    let nl = seq!['\n'];
    assert forall|i: int| 0 <= i < ls[0].len() implies #[trigger] ls[0][i] != '\n' by {}
    if ls.len() == 1 {
        assert(join(ls, nl).push('\n') =~= ls[0] + nl + Seq::<char>::empty());
        lemma_lines_cons(ls[0], Seq::<char>::empty());
        assert(lines(Seq::<char>::empty()) =~= Seq::<Seq<char>>::empty());
        assert(seq![strip_cr(ls[0])] + Seq::<Seq<char>>::empty() =~= Seq::new(
            ls.len(),
            |i: int| strip_cr(ls[i]),
        ));
    } else {
        let rest = ls.drop_first();
        assert forall|i: int, j: int| 0 <= i < rest.len() && 0 <= j < rest[i].len() implies #[trigger] rest[i][j]
            != '\n' by {
            assert(rest[i] == ls[i + 1]);
        }
        lemma_join_front(ls, nl);
        lemma_lines_of_joined(rest);
        assert(join(ls, nl).push('\n') =~= ls[0] + nl + join(rest, nl).push('\n'));
        lemma_lines_cons(ls[0], join(rest, nl).push('\n'));
        assert(seq![strip_cr(ls[0])] + Seq::new(rest.len(), |i: int| strip_cr(rest[i]))
            =~= Seq::new(ls.len(), |i: int| strip_cr(ls[i])));
    }
}

/// The pieces of `s` between occurrences of `c`, as `str::split(c)` yields
/// them (always at least one piece).
pub open spec fn split_on(s: Seq<char>, c: char) -> Seq<Seq<char>>
    decreases s.len(),
{
    let k = find_char(s, c);
    proof {
        lemma_find_char_bounds(s, c);
    }
    if k >= s.len() {
        seq![s]
    } else {
        seq![s.take(k)] + split_on(s.skip(k + 1), c)
    }
}

/// The pieces of `s` between occurrences of `c`.
pub fn split_chars(s: &Vec<char>, c: char) -> (r: Vec<Vec<char>>)
    ensures
        view_all(r@) == split_on(s@, c),
{
    let n: usize = s.len();
    let mut out: Vec<Vec<char>> = Vec::new();
    let mut cur: Vec<char> = Vec::new();
    let mut start: usize = 0;
    let mut i: usize = 0;
    assert(s@.subrange(0, n as int) =~= s@);
    assert(view_all(out@) + split_on(s@, c) =~= split_on(s@, c));
    while i < n
        invariant
            start <= i <= n == s@.len(),
            cur@ == s@.subrange(start as int, i as int),
            forall|m: int| start <= m < i ==> #[trigger] s@[m] != c,
            view_all(out@) + split_on(s@.subrange(start as int, n as int), c) == split_on(s@, c),
        decreases n - i,
    {
        if s[i] == c {
            let ghost rest = s@.subrange(start as int, n as int);
            proof {
                assert forall|m: int| 0 <= m < i - start implies #[trigger] rest[m] != c by {
                    assert(rest[m] == s@[m + start]);
                }
                lemma_find_char(rest, c, i - start);
                assert(rest.take(i - start) =~= cur@);
                assert(rest.skip(i - start + 1) =~= s@.subrange(i + 1, n as int));
            }
            let ghost before = view_all(out@);
            out.push(cur);
            proof {
                assert(view_all(out@) =~= before.push(rest.take(i - start)));
                assert(view_all(out@) + split_on(s@.subrange(i + 1, n as int), c) =~= before
                    + split_on(rest, c));
            }
            cur = Vec::new();
            start = i + 1;
            assert(cur@ =~= s@.subrange(start as int, start as int));
        } else {
            cur.push(s[i]);
            assert(cur@ =~= s@.subrange(start as int, i + 1));
        }
        i = i + 1;
    }
    let ghost rest = s@.subrange(start as int, n as int);
    proof {
        assert forall|m: int| 0 <= m < rest.len() implies #[trigger] rest[m] != c by {
            assert(rest[m] == s@[m + start]);
        }
        lemma_find_char(rest, c, rest.len() as int);
        assert(cur@ =~= rest);
    }
    let ghost before = view_all(out@);
    out.push(cur);
    assert(view_all(out@) =~= before + split_on(rest, c));
    out
}
} // verus!
