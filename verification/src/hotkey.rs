//! The Cinnamon hotkey that `cliphist install` binds: reading and writing
//! gsettings' list of custom keybindings, and the values of the slot.
use vstd::prelude::*;
use crate::text::{
    chars_of, string_of, trim, trim_chars, split_on, split_chars, view_all, view_all_strings,
    append_chars, starts_with, starts_with_chars, contains, contains_chars, join, join_chars,
    slice_chars, str_eq,
};

verus! {

/// The gsettings schema of Cinnamon's keybindings.
pub const SCHEMA: &'static str = "org.cinnamon.desktop.keybindings";

/// The schema of one custom keybinding.
pub const KEYBINDING_SCHEMA: &'static str = "org.cinnamon.desktop.keybindings.custom-keybinding";

/// The hotkey bound when none is given.
pub const DEFAULT_HOTKEY: &'static str = "<Super>v";

/// `s` with every leading copy of `p` removed (`str::trim_start_matches`).
pub open spec fn strip_prefixes(s: Seq<char>, p: Seq<char>) -> Seq<char>
    decreases s.len(),
{
    if p.len() > 0 && starts_with(s, p) {
        strip_prefixes(s.skip(p.len() as int), p)
    } else {
        s
    }
}

/// `s` without the characters of `set` at either end (`str::trim_matches`).
pub open spec fn strip_ends(s: Seq<char>, set: Seq<char>) -> Seq<char>
    decreases s.len(),
{
    if s.len() > 0 && set.contains(s[0]) {
        strip_ends(s.drop_first(), set)
    } else if s.len() > 0 && set.contains(s.last()) {
        strip_ends(s.drop_last(), set)
    } else {
        s
    }
}

/// The square brackets.
pub open spec fn brackets() -> Seq<char> {
    seq!['[', ']']
}

/// The single quote.
pub open spec fn quote() -> Seq<char> {
    seq!['\'']
}

/// The names among `pieces`, each trimmed and unquoted, blanks dropped.
pub open spec fn slot_names(pieces: Seq<Seq<char>>) -> Seq<Seq<char>>
    decreases pieces.len(),
{
    if pieces.len() == 0 {
        seq![]
    } else {
        let prev = slot_names(pieces.drop_last());
        let name = strip_ends(trim(pieces.last()), quote());
        if name.len() == 0 {
            prev
        } else {
            prev.push(name)
        }
    }
}

/// The slots of gsettings' `custom-list` value, e.g. `['custom0', 'custom1']`
/// or `@as []`.
pub open spec fn parse_list_spec(raw: Seq<char>) -> Seq<Seq<char>> {
    let inner = strip_ends(trim(strip_prefixes(raw, "@as"@)), brackets());
    slot_names(split_on(inner, ','))
}

fn strip_prefixes_exec(s: &Vec<char>, p: &Vec<char>) -> (r: Vec<char>)
    ensures
        r@ == strip_prefixes(s@, p@),
{
    let mut i: usize = 0;
    assert(s@.skip(0) =~= s@);
    while p.len() > 0 && i <= s.len()
        invariant
            i <= s@.len(),
            strip_prefixes(s@, p@) == strip_prefixes(s@.skip(i as int), p@),
        decreases s@.len() - i,
    {
        let rest = slice_chars(s, i, s.len());
        assert(rest@ =~= s@.skip(i as int));
        if !starts_with_chars(&rest, p) {
            return rest;
        }
        assert(s@.skip(i as int).skip(p@.len() as int) =~= s@.skip(i + p@.len()));
        i = i + p.len();
    }
    slice_chars(s, i, s.len())
}

fn in_set(set: &Vec<char>, c: char) -> (b: bool)
    ensures
        b == set@.contains(c),
{
    let mut i: usize = 0;
    while i < set.len()
        invariant
            i <= set@.len(),
            forall|k: int| 0 <= k < i ==> set@[k] != c,
        decreases set@.len() - i,
    {
        if set[i] == c {
            return true;
        }
        i = i + 1;
    }
    false
}

fn strip_ends_exec(s: &Vec<char>, set: &Vec<char>) -> (r: Vec<char>)
    ensures
        r@ == strip_ends(s@, set@),
{
    let mut a: usize = 0;
    let mut b: usize = s.len();
    assert(s@.subrange(0, b as int) =~= s@);
    while a < b && in_set(set, s[a])
        invariant
            a <= b == s@.len(),
            strip_ends(s@, set@) == strip_ends(s@.subrange(a as int, b as int), set@),
        decreases b - a,
    {
        assert(s@.subrange(a as int, b as int).drop_first() =~= s@.subrange(a + 1, b as int));
        a = a + 1;
    }
    while a < b && in_set(set, s[b - 1])
        invariant
            a <= b <= s@.len(),
            a < b ==> !set@.contains(s@[a as int]),
            strip_ends(s@, set@) == strip_ends(s@.subrange(a as int, b as int), set@),
        decreases b - a,
    {
        assert(s@.subrange(a as int, b as int).drop_last() =~= s@.subrange(a as int, b - 1));
        assert(s@.subrange(a as int, b as int)[0] == s@[a as int]);
        b = b - 1;
    }
    proof {
        if a < b {
            assert(s@.subrange(a as int, b as int)[0] == s@[a as int]);
            assert(s@.subrange(a as int, b as int).last() == s@[b - 1]);
        }
    }
    slice_chars(s, a, b)
}

/// The slots named in gsettings' `custom-list` value.
pub fn parse_custom_list(raw: &str) -> (r: Vec<String>)
    ensures
        view_all_strings(r@) == parse_list_spec(raw@),
{
    proof {
        reveal_strlit("@as");
    }
    let rc = chars_of(raw);
    let p1 = strip_prefixes_exec(&rc, &chars_of("@as"));
    let p2 = trim_chars(&p1);
    let mut br: Vec<char> = Vec::new();
    br.push('[');
    br.push(']');
    assert(br@ =~= brackets());
    let inner = strip_ends_exec(&p2, &br);
    let pieces = split_chars(&inner, ',');
    let mut q: Vec<char> = Vec::new();
    q.push('\'');
    assert(q@ =~= quote());
    let mut out: Vec<String> = Vec::new();
    let mut i: usize = 0;
    while i < pieces.len()
        invariant
            i <= pieces@.len(),
            q@ == quote(),
            view_all(pieces@) == split_on(strip_ends(trim(strip_prefixes(raw@, "@as"@)), brackets()), ','),
            view_all_strings(out@) == slot_names(view_all(pieces@).take(i as int)),
        decreases pieces@.len() - i,
    {
        let ghost before = view_all_strings(out@);
        assert(view_all(pieces@).take(i + 1).drop_last() =~= view_all(pieces@).take(i as int));
        let name = strip_ends_exec(&trim_chars(&pieces[i]), &q);
        if name.len() > 0 {
            out.push(string_of(&name));
            assert(view_all_strings(out@) =~= before.push(name@));
        }
        i = i + 1;
    }
    assert(view_all(pieces@).take(pieces@.len() as int) =~= view_all(pieces@));
    out
}

/// `'name'`.
pub open spec fn quoted(name: Seq<char>) -> Seq<char> {
    quote() + name + quote()
}

/// The `custom-list` value listing `slots`: `['a', 'b']`.
pub open spec fn format_list_spec(slots: Seq<Seq<char>>) -> Seq<char> {
    seq!['['] + join(Seq::new(slots.len(), |i: int| quoted(slots[i])), ", "@) + seq![']']
}

pub fn format_custom_list(slots: &Vec<String>) -> (r: String)
    ensures
        r@ == format_list_spec(view_all_strings(slots@)),
{
    proof {
        reveal_strlit(", ");
    }
    let mut qs: Vec<Vec<char>> = Vec::new();
    let mut i: usize = 0;
    while i < slots.len()
        invariant
            i <= slots@.len(),
            view_all(qs@) == Seq::new(i as nat, |k: int| quoted(view_all_strings(slots@)[k])),
        decreases slots@.len() - i,
    {
        let ghost name = view_all_strings(slots@)[i as int];
        let mut one: Vec<char> = Vec::new();
        one.push('\'');
        append_chars(&mut one, &chars_of(slots[i].as_str()));
        one.push('\'');
        assert(one@ =~= quoted(name));
        let ghost before = view_all(qs@);
        qs.push(one);
        assert(view_all(qs@) =~= before.push(quoted(name)));
        assert(view_all(qs@) =~= Seq::new((i + 1) as nat, |k: int| quoted(view_all_strings(slots@)[k])));
        i = i + 1;
    }
    let mut out: Vec<char> = Vec::new();
    out.push('[');
    append_chars(&mut out, &join_chars(&qs, &chars_of(", ")));
    out.push(']');
    string_of(&out)
}

/// The slot name `custom<i>`.
pub fn slot_name(i: u64) -> (r: String)
    ensures
        r@ == "custom"@ + crate::num::decimal(i as nat),
{
    let mut out = chars_of("custom");
    append_chars(&mut out, &crate::num::u64_chars(i));
    string_of(&out)
}

/// Whether `slot` is among `slots`.
pub fn has_slot(slots: &Vec<String>, slot: &str) -> (b: bool)
    ensures
        b == view_all_strings(slots@).contains(slot@),
{
    let mut i: usize = 0;
    while i < slots.len()
        invariant
            i <= slots@.len(),
            forall|k: int| 0 <= k < i ==> #[trigger] view_all_strings(slots@)[k] != slot@,
        decreases slots@.len() - i,
    {
        if str_eq(slots[i].as_str(), slot) {
            assert(view_all_strings(slots@)[i as int] == slot@);
            return true;
        }
        i = i + 1;
    }
    false
}

/// Whether a keybinding's command runs this program (the slot is ours).
pub fn mentions_cliphist(command: &str) -> (b: bool)
    ensures
        b == contains(command@, "cliphist"@),
{
    contains_chars(&chars_of(command), &chars_of("cliphist"))
}

/// The dconf path of custom keybinding `slot`.
pub fn keybinding_path(slot: &str) -> (r: String)
    ensures
        r@ == "/org/cinnamon/desktop/keybindings/custom-keybindings/"@ + slot@ + seq!['/'],
{
    let mut out = chars_of("/org/cinnamon/desktop/keybindings/custom-keybindings/");
    append_chars(&mut out, &chars_of(slot));
    out.push('/');
    string_of(&out)
}

/// The keybinding's command value: `'<exe> pick --paste'`.
pub fn command_value(exe: &str) -> (r: String)
    ensures
        r@ == seq!['\''] + exe@ + " pick --paste'"@,
{
    let mut out: Vec<char> = Vec::new();
    out.push('\'');
    append_chars(&mut out, &chars_of(exe));
    append_chars(&mut out, &chars_of(" pick --paste'"));
    string_of(&out)
}

/// The keybinding's binding value: `['<hotkey>']`.
pub fn binding_value(hotkey: &str) -> (r: String)
    ensures
        r@ == seq!['[', '\''] + hotkey@ + seq!['\'', ']'],
{
    let mut out: Vec<char> = Vec::new();
    out.push('[');
    out.push('\'');
    append_chars(&mut out, &chars_of(hotkey));
    out.push('\'');
    out.push(']');
    string_of(&out)
}

/// The slot name `custom<i>`, as a spec.
pub open spec fn slot_spec(i: u64) -> Seq<char> {
    "custom"@ + crate::num::decimal(i as nat)
}

/// What to do about a slot while looking for one to bind.
pub enum SlotStep {
    /// Bind slot `custom<i>`.
    Take(u64),
    /// Slot `custom<i>` is listed: read its command to see whether it is ours.
    Inspect(u64),
}

/// The step for slot `i`: take it when it is not listed, else inspect it.
pub open spec fn probe_spec(existing: Seq<Seq<char>>, i: u64) -> SlotStep {
    if existing.contains(slot_spec(i)) {
        SlotStep::Inspect(i)
    } else {
        SlotStep::Take(i)
    }
}

fn probe(existing: &Vec<String>, i: u64) -> (r: SlotStep)
    ensures
        r == probe_spec(view_all_strings(existing@), i),
{
    let name = slot_name(i);
    if has_slot(existing, name.as_str()) {
        SlotStep::Inspect(i)
    } else {
        SlotStep::Take(i)
    }
}

/// The first step of the search for a slot: `custom0`.
pub fn first_slot(existing: &Vec<String>) -> (r: SlotStep)
    ensures
        r == probe_spec(view_all_strings(existing@), 0),
{
    probe(existing, 0)
}

/// The step after inspecting listed slot `i`, whose command is `command`:
/// a slot that already runs this program is reused, else the search moves
/// on to the next slot. A slot listed for another program is never taken.
pub fn next_slot(existing: &Vec<String>, i: u64, command: &str) -> (r: SlotStep)
    requires
        i < u64::MAX,
    ensures
        contains(command@, "cliphist"@) ==> r == SlotStep::Take(i),
        !contains(command@, "cliphist"@) ==> r == probe_spec(view_all_strings(existing@), (i + 1) as u64),
{
    if mentions_cliphist(command) {
        SlotStep::Take(i)
    } else {
        probe(existing, i + 1)
    }
}

/// `existing` with `slot` appended, unless it is already listed.
pub fn with_slot(existing: Vec<String>, slot: String) -> (r: Vec<String>)
    ensures
        view_all_strings(existing@).contains(slot@) ==> view_all_strings(r@) == view_all_strings(existing@),
        !view_all_strings(existing@).contains(slot@) ==> view_all_strings(r@) == view_all_strings(existing@).push(slot@),
{
    let mut out = existing;
    if !has_slot(&out, slot.as_str()) {
        let ghost before = view_all_strings(out@);
        out.push(slot);
        assert(view_all_strings(out@) =~= before.push(slot@));
    }
    out
}

/// A slot name that survives the list's quoting: not empty, no comma, and
/// no quote at either end.
pub open spec fn plain_slot(s: Seq<char>) -> bool {
    &&& s.len() > 0
    &&& !s.contains(',')
    &&& s[0] != '\''
    &&& s.last() != '\''
}

proof fn lemma_trim_plain(s: Seq<char>)
    requires
        s.len() > 0,
        !crate::text::is_ws(s[0]),
        !crate::text::is_ws(s.last()),
    ensures
        trim(s) == s,
        trim(seq![' '] + s) == s,
{
    let t = seq![' '] + s;
    assert(t.drop_first() =~= s);
    assert(crate::text::trim_start(t) == crate::text::trim_start(s));
}

proof fn lemma_unquote(s: Seq<char>, p: Seq<char>)
    requires
        plain_slot(s),
        p == Seq::<char>::empty() || p == seq![' '],
    ensures
        strip_ends(trim(p + quoted(s)), quote()) == s,
{
    let q = quoted(s);
    assert(q[0] == '\'');
    assert(q.last() == '\'');
    assert(p + q =~= (if p.len() == 0 { q } else { seq![' '] + q }));
    lemma_trim_plain(q);
    let t = q.drop_first();
    assert(t =~= s + quote());
    assert(quote().contains('\''));
    assert(t[0] == s[0]);
    assert(!quote().contains(s[0]));
    assert(t.last() == '\'');
    assert(t.drop_last() =~= s);
    assert(!quote().contains(s.last()));
    assert(strip_ends(q, quote()) == strip_ends(t, quote()));
    assert(strip_ends(t, quote()) == strip_ends(s, quote()));
    assert(strip_ends(s, quote()) == s);
    if p.len() == 0 {
        assert(p + q =~= q);
    } else {
        assert(p + q =~= seq![' '] + q);
    }
}

proof fn lemma_join_ends(ls: Seq<Seq<char>>, sep: Seq<char>)
    requires
        ls.len() > 0,
        forall|i: int| 0 <= i < ls.len() ==> #[trigger] ls[i].len() > 0,
    ensures
        join(ls, sep).len() > 0,
        join(ls, sep)[0] == ls[0][0],
        join(ls, sep).last() == ls.last().last(),
    decreases ls.len(),
{
    if ls.len() > 1 {
        let d = ls.drop_last();
        assert(d[0] == ls[0]);
        assert forall|i: int| 0 <= i < d.len() implies #[trigger] d[i].len() > 0 by {
            assert(d[i] == ls[i]);
        }
        lemma_join_ends(d, sep);
        assert(ls.last().len() > 0);
    }
}

/// `s` has no comma.
proof fn lemma_split_no_comma(s: Seq<char>)
    requires
        !s.contains(','),
    ensures
        split_on(s, ',') == seq![s],
{
    assert forall|m: int| 0 <= m < s.len() implies #[trigger] s[m] != ',' by {
        if s[m] == ',' {
            assert(s.contains(','));
        }
    }
    crate::text::lemma_find_char(s, ',', s.len() as int);
}

proof fn lemma_split_cons(a: Seq<char>, b: Seq<char>)
    requires
        !a.contains(','),
    ensures
        split_on(a + seq![','] + b, ',') == seq![a] + split_on(b, ','),
{
    let s = a + seq![','] + b;
    assert forall|m: int| 0 <= m < a.len() implies #[trigger] s[m] != ',' by {
        assert(s[m] == a[m]);
        if a[m] == ',' {
            assert(a.contains(','));
        }
    }
    crate::text::lemma_find_char(s, ',', a.len() as int);
    assert(s.take(a.len() as int) =~= a);
    assert(s.skip(a.len() + 1int) =~= b);
}

/// The pieces of `p` followed by `ls` joined with ", ", split at commas.
proof fn lemma_split_joined(p: Seq<char>, ls: Seq<Seq<char>>)
    requires
        ls.len() > 0,
        !p.contains(','),
        forall|i: int| 0 <= i < ls.len() ==> !(#[trigger] ls[i]).contains(','),
    ensures
        split_on(p + join(ls, ", "@), ',') == seq![p + ls[0]] + Seq::new(
            (ls.len() - 1) as nat,
            |i: int| seq![' '] + ls[i + 1],
        ),
    decreases ls.len(),
{
    reveal_strlit(", ");
    let sep = ", "@;
    assert(sep =~= seq![',', ' ']);
    if ls.len() == 1 {
        assert(join(ls, sep) == ls[0]);
        assert(!ls[0].contains(','));
        assert(!(p + ls[0]).contains(',')) by {
            if (p + ls[0]).contains(',') {
                let m = choose|m: int| 0 <= m < (p + ls[0]).len() && (p + ls[0])[m] == ',';
                if m < p.len() {
                    assert(p[m] == ',');
                } else {
                    assert(ls[0][m - p.len()] == ',');
                }
            }
        }
        lemma_split_no_comma(p + ls[0]);
        assert(Seq::new((ls.len() - 1) as nat, |i: int| seq![' '] + ls[i + 1]) =~= Seq::<Seq<char>>::empty());
        assert(seq![p + ls[0]] + Seq::<Seq<char>>::empty() =~= seq![p + ls[0]]);
    } else {
        let rest = ls.drop_first();
        crate::text::lemma_join_front(ls, sep);
        assert forall|i: int| 0 <= i < rest.len() implies !(#[trigger] rest[i]).contains(',') by {
            assert(rest[i] == ls[i + 1]);
        }
        assert(!seq![' '].contains(',')) by {
            if seq![' '].contains(',') {
                let m = choose|m: int| 0 <= m < 1 && seq![' '][m] == ',';
            }
        }
        lemma_split_joined(seq![' '], rest);
        let a = p + ls[0];
        assert(!a.contains(',')) by {
            if a.contains(',') {
                let m = choose|m: int| 0 <= m < a.len() && a[m] == ',';
                if m < p.len() {
                    assert(p[m] == ',');
                } else {
                    assert(ls[0][m - p.len()] == ',');
                }
            }
        }
        assert(p + join(ls, sep) =~= a + seq![','] + (seq![' '] + join(rest, sep)));
        lemma_split_cons(a, seq![' '] + join(rest, sep));
        assert(seq![a] + (seq![seq![' '] + rest[0]] + Seq::new(
            (rest.len() - 1) as nat,
            |i: int| seq![' '] + rest[i + 1],
        )) =~= seq![a] + Seq::new((ls.len() - 1) as nat, |i: int| seq![' '] + ls[i + 1]));
    }
}

/// `slot_names` keeps every piece whose name is not blank.
proof fn lemma_slot_names_all(pieces: Seq<Seq<char>>)
    requires
        forall|i: int| 0 <= i < pieces.len() ==> #[trigger] strip_ends(trim(pieces[i]), quote()).len() > 0,
    ensures
        slot_names(pieces) == Seq::new(pieces.len(), |i: int| strip_ends(trim(pieces[i]), quote())),
    decreases pieces.len(),
{
    if pieces.len() > 0 {
        let d = pieces.drop_last();
        assert forall|i: int| 0 <= i < d.len() implies #[trigger] strip_ends(trim(d[i]), quote()).len() > 0 by {
            assert(d[i] == pieces[i]);
        }
        lemma_slot_names_all(d);
        assert(strip_ends(trim(pieces.last()), quote()).len() > 0);
        assert(Seq::new(d.len(), |i: int| strip_ends(trim(d[i]), quote())).push(
            strip_ends(trim(pieces.last()), quote()),
        ) =~= Seq::new(pieces.len(), |i: int| strip_ends(trim(pieces[i]), quote())));
    } else {
        assert(Seq::new(pieces.len(), |i: int| strip_ends(trim(pieces[i]), quote())) =~= Seq::<Seq<char>>::empty());
    }
}

/// The `custom-list` value written for `slots` reads back as `slots`, when
/// every slot name survives the quoting.
pub proof fn lemma_custom_list_roundtrip(slots: Seq<Seq<char>>)
    requires
        forall|i: int| 0 <= i < slots.len() ==> plain_slot(#[trigger] slots[i]),
    ensures
        parse_list_spec(format_list_spec(slots)) == slots,
{
    reveal_strlit("@as");
    reveal_strlit(", ");
    let qs = Seq::new(slots.len(), |i: int| quoted(slots[i]));
    let j = join(qs, ", "@);
    let raw = format_list_spec(slots);
    assert(raw == seq!['['] + j + seq![']']);
    assert(raw[0] == '[');
    assert(raw.last() == ']');
    assert(!starts_with(raw, "@as"@)) by {
        if starts_with(raw, "@as"@) {
            assert(raw.take(3)[0] == "@as"@[0]);
        }
    }
    assert(strip_prefixes(raw, "@as"@) == raw);
    lemma_trim_plain(raw);
    let s1 = raw.drop_first();
    assert(s1 =~= j + seq![']']);
    assert(brackets().contains('['));
    assert(brackets().contains(']'));
    assert(!brackets().contains('\''));
    if slots.len() == 0 {
        assert(qs =~= Seq::<Seq<char>>::empty());
        assert(j =~= Seq::<char>::empty());
        assert(s1 =~= seq![']']);
        assert(s1.drop_first() =~= Seq::<char>::empty());
        assert(strip_ends(raw, brackets()) == strip_ends(s1, brackets()));
        assert(strip_ends(s1, brackets()) == strip_ends(Seq::<char>::empty(), brackets()));
        assert(strip_ends(raw, brackets()) =~= Seq::<char>::empty());
        crate::text::lemma_find_char(Seq::<char>::empty(), ',', 0);
        assert(split_on(Seq::<char>::empty(), ',') =~= seq![Seq::<char>::empty()]);
        let e = Seq::<char>::empty();
        assert(trim(e) =~= e);
        assert(strip_ends(trim(e), quote()) =~= e);
        let ps = seq![e];
        assert(ps.drop_last() =~= Seq::<Seq<char>>::empty());
        assert(ps.last() == e);
        assert(slot_names(ps.drop_last()) =~= Seq::<Seq<char>>::empty());
        assert(strip_ends(trim(ps.last()), quote()).len() == 0);
        assert(slot_names(ps) =~= Seq::<Seq<char>>::empty());
        assert(slots =~= Seq::<Seq<char>>::empty());
    } else {
        assert forall|i: int| 0 <= i < qs.len() implies #[trigger] qs[i].len() > 0 by {}
        lemma_join_ends(qs, ", "@);
        assert(qs[0][0] == '\'');
        assert(qs.last() == quoted(slots.last()));
        assert(qs.last().last() == '\'');
        assert(s1[0] == '\'');
        assert(s1.last() == ']');
        assert(s1.drop_last() =~= j);
        assert(j[0] == '\'');
        assert(j.last() == '\'');
        assert(strip_ends(raw, brackets()) == strip_ends(s1, brackets()));
        assert(strip_ends(s1, brackets()) == strip_ends(j, brackets()));
        assert(strip_ends(j, brackets()) == j);
        assert(strip_ends(raw, brackets()) == j);
        assert forall|i: int| 0 <= i < qs.len() implies !(#[trigger] qs[i]).contains(',') by {
            let q = qs[i];
            assert(plain_slot(slots[i]));
            if q.contains(',') {
                let m = choose|m: int| 0 <= m < q.len() && q[m] == ',';
                assert(q =~= quote() + slots[i] + quote());
                if m > 0 && m < q.len() - 1 {
                    assert(slots[i][m - 1] == ',');
                    assert(slots[i].contains(','));
                }
            }
        }
        let e = Seq::<char>::empty();
        assert(!e.contains(','));
        lemma_split_joined(e, qs);
        assert(e + j =~= j);
        let pieces = split_on(j, ',');
        assert(pieces.len() == slots.len());
        assert forall|i: int| 0 <= i < pieces.len() implies #[trigger] strip_ends(trim(pieces[i]), quote()) == slots[i] by {
            if i == 0 {
                assert(pieces[0] == e + qs[0]);
                assert(e + qs[0] =~= qs[0]);
                lemma_unquote(slots[0], e);
                assert(e + quoted(slots[0]) =~= quoted(slots[0]));
            } else {
                assert(pieces[i] == seq![' '] + qs[i]);
                lemma_unquote(slots[i], seq![' ']);
            }
        }
        lemma_slot_names_all(pieces);
        assert(slot_names(pieces) =~= slots);
    }
}

} // verus!
