//! The picker panel's decisions: which entries a search shows, what a row
//! and the footer say, what a key press does, where the selection moves and
//! where the panel opens. Drawing the panel is the caller's part.
use vstd::prelude::*;
use crate::db::Entry;
use crate::text::{
    chars_of, string_of, trim, trim_chars, words, split_words, join, join_chars, contains,
    contains_chars, truncated, truncate_chars, view_all, occurs_at, starts_with, starts_with_chars,
    slice_chars, append_chars,
};

verus! {

/// Panel width in pixels.
pub const PANEL_WIDTH: i32 = 470;

/// Panel height in pixels.
pub const PANEL_HEIGHT: i32 = 560;

/// At most this many rows are rendered.
pub const RENDER_CAP: usize = 80;

/// How many entries the panel loads.
pub const FETCH_LIMIT: i64 = 300;

/// `s` in lower case, as `str::to_lowercase` maps it.
pub uninterp spec fn lowercase(s: Seq<char>) -> Seq<char>;

/// `str::to_lowercase`.
#[verifier::external_body]
fn to_lower(s: &str) -> (r: String)
    ensures
        r@ == lowercase(s@),
{
    s.to_lowercase()
}

/// Whether every one of `terms` occurs in `hay`.
pub open spec fn has_all_terms(hay: Seq<char>, terms: Seq<Seq<char>>) -> bool {
    forall|i: int| 0 <= i < terms.len() ==> contains(hay, #[trigger] terms[i])
}

/// The text a search looks in: the label of an image, else the content, in
/// lower case.
pub open spec fn haystack(e: Entry) -> Seq<char> {
    if e.is_image_spec() {
        lowercase(e.label_spec(999))
    } else {
        lowercase(e.content@)
    }
}

/// Whether entry `e` shows for search text `query`: every word of the
/// lower-cased query occurs in its haystack.
pub open spec fn shows(e: Entry, query: Seq<char>) -> bool {
    has_all_terms(haystack(e), words(lowercase(query)))
}

/// The indices of the first `n` entries that show for `query`, in order.
pub open spec fn shown_upto(entries: Seq<Entry>, query: Seq<char>, n: int) -> Seq<usize>
    decreases n,
{
    if n <= 0 {
        seq![]
    } else {
        let prev = shown_upto(entries, query, n - 1);
        if shows(entries[n - 1], query) {
            prev.push((n - 1) as usize)
        } else {
            prev
        }
    }
}

/// What the panel lists for search text `query`: the matching entries, in
/// order, at most `RENDER_CAP` of them.
pub open spec fn shown_spec(entries: Seq<Entry>, query: Seq<char>) -> Seq<usize> {
    let all = shown_upto(entries, query, entries.len() as int);
    if all.len() <= RENDER_CAP {
        all
    } else {
        all.take(RENDER_CAP as int)
    }
}

fn has_all_terms_exec(hay: &Vec<char>, terms: &Vec<Vec<char>>) -> (b: bool)
    ensures
        b == has_all_terms(hay@, view_all(terms@)),
{
    let mut i: usize = 0;
    while i < terms.len()
        invariant
            i <= terms@.len(),
            forall|k: int| 0 <= k < i ==> contains(hay@, #[trigger] view_all(terms@)[k]),
        decreases terms@.len() - i,
    {
        if !contains_chars(hay, &terms[i]) {
            assert(!contains(hay@, view_all(terms@)[i as int]));
            return false;
        }
        i = i + 1;
    }
    true
}

/// The indices of the entries the panel lists for search text `query`.
pub fn shown_indices(entries: &Vec<Entry>, query: &str) -> (r: Vec<usize>)
    ensures
        r@ == shown_spec(entries@, query@),
{
    let q = to_lower(query);
    let terms = split_words(&chars_of(q.as_str()));
    let mut out: Vec<usize> = Vec::new();
    let mut i: usize = 0;
    while i < entries.len()
        invariant
            i <= entries@.len(),
            view_all(terms@) == words(lowercase(query@)),
            out@ == shown_upto(entries@, query@, i as int),
        decreases entries@.len() - i,
    {
        let e = &entries[i];
        let hay = if e.is_image() {
            to_lower(e.label(999).as_str())
        } else {
            to_lower(e.content.as_str())
        };
        if has_all_terms_exec(&chars_of(hay.as_str()), &terms) {
            out.push(i);
        }
        i = i + 1;
    }
    if out.len() > RENDER_CAP {
        out.truncate(RENDER_CAP);
    }
    out
}

/// The footer line: how many entries show out of how many, and the keys.
pub open spec fn footer_spec(shown: nat, total: nat) -> Seq<char> {
    crate::num::decimal(shown) + seq!['/'] + crate::num::decimal(total)
        + " items  \u{2022}  \u{23ce} copy  \u{2022}  \u{2325}1-9 quick pick  \u{2022}  \u{2303}P pin  \u{2022}  \u{2326} delete  \u{2022}  esc close"@
}

pub fn footer_text(shown: usize, total: usize) -> (r: String)
    ensures
        r@ == footer_spec(shown as nat, total as nat),
{
    let mut out = crate::num::u64_chars(shown as u64);
    out.push('/');
    append_chars(&mut out, &crate::num::u64_chars(total as u64));
    append_chars(
        &mut out,
        &chars_of(
            " items  \u{2022}  \u{23ce} copy  \u{2022}  \u{2325}1-9 quick pick  \u{2022}  \u{2303}P pin  \u{2022}  \u{2326} delete  \u{2022}  esc close",
        ),
    );
    string_of(&out)
}

/// Index of the first occurrence of `pat` in `s`, or `s.len()`.
pub open spec fn find_sub(s: Seq<char>, pat: Seq<char>) -> int
    decreases s.len(),
{
    if s.len() == 0 || starts_with(s, pat) {
        0
    } else {
        1 + find_sub(s.drop_first(), pat)
    }
}

proof fn lemma_find_sub_bound(s: Seq<char>, pat: Seq<char>)
    ensures
        0 <= find_sub(s, pat) <= s.len(),
    decreases s.len(),
{
    if !(s.len() == 0 || starts_with(s, pat)) {
        lemma_find_sub_bound(s.drop_first(), pat);
    }
}

fn find_sub_exec(s: &Vec<char>, pat: &Vec<char>) -> (r: usize)
    ensures
        r == find_sub(s@, pat@),
        r <= s@.len(),
{
    let mut i: usize = 0;
    assert(s@.skip(0) =~= s@);
    while i < s.len()
        invariant
            i <= s@.len(),
            find_sub(s@, pat@) == i + find_sub(s@.skip(i as int), pat@),
        decreases s@.len() - i,
    {
        let rest = slice_chars(s, i, s.len());
        assert(rest@ =~= s@.skip(i as int));
        if starts_with_chars(&rest, pat) {
            return i;
        }
        assert(s@.skip(i as int).drop_first() =~= s@.skip(i + 1));
        i = i + 1;
    }
    assert(s@.skip(i as int) =~= Seq::<char>::empty());
    i
}

/// The title of a row: "Image WxH" for an image, else the content flattened
/// to one run of words and cut to 220 characters ("(empty)" when blank).
pub open spec fn row_title_spec(e: Entry) -> Seq<char> {
    if e.is_image_spec() {
        let mt = crate::db::meta_text_spec(crate::db::opt_view(e.meta));
        let dims = trim(mt.take(find_sub(mt, " - "@)));
        if dims.len() == 0 {
            "Image"@
        } else {
            "Image "@ + dims
        }
    } else {
        let flat = join(words(e.content@), seq![' ']);
        if flat.len() == 0 {
            "(empty)"@
        } else {
            truncated(flat, 220)
        }
    }
}

pub fn row_title(e: &Entry) -> (r: String)
    ensures
        r@ == row_title_spec(*e),
{
    proof {
        reveal_strlit(" - ");
    }
    if e.is_image() {
        let mt = chars_of(e.meta_text().as_str());
        let sep = chars_of(" - ");
        let k: usize = find_sub_exec(&mt, &sep);
        proof {
            lemma_find_sub_bound(mt@, sep@);
        }
        let head = slice_chars(&mt, 0, k);
        assert(head@ =~= mt@.take(k as int));
        let dims = trim_chars(&head);
        if dims.len() == 0 {
            string_of(&chars_of("Image"))
        } else {
            let mut out = chars_of("Image ");
            append_chars(&mut out, &dims);
            string_of(&out)
        }
    } else {
        let ws = split_words(&chars_of(e.content.as_str()));
        let mut space: Vec<char> = Vec::new();
        space.push(' ');
        assert(space@ =~= seq![' ']);
        let flat = join_chars(&ws, &space);
        if flat.len() == 0 {
            string_of(&chars_of("(empty)"))
        } else {
            string_of(&truncate_chars(&flat, 220))
        }
    }
}

/// The keys the panel reacts to.
pub enum NamedKey {
    Escape,
    Return,
    KpEnter,
    Down,
    Up,
    PageDown,
    PageUp,
    Delete,
    /// The `p` key (with Ctrl: pin).
    P,
    Other,
}

/// What a key press does.
pub enum KeyAction {
    /// Alt+1..9: select this row and take it.
    QuickPick(i32),
    /// Alt+digit past the last row: swallowed.
    Swallow,
    /// Escape: close without taking anything.
    Close,
    /// Enter: take the selected row.
    Accept,
    /// Move the selection by this many rows.
    Move(i32),
    /// Delete the selected entry.
    DeleteSelected,
    /// Ctrl+P: pin or unpin the selected entry.
    TogglePin,
    /// Not ours: let the search field have it.
    Pass,
}

/// What a key press does, given the key, the character it types, the
/// modifiers and how many rows show.
pub open spec fn on_key_spec(key: NamedKey, ch: Option<char>, ctrl: bool, alt: bool, shown: nat) -> KeyAction {
    if alt && ch is Some && '1' <= ch->0 <= '9' {
        let idx = (ch->0 as int) - ('1' as int);
        if idx < shown {
            KeyAction::QuickPick(idx as i32)
        } else {
            KeyAction::Swallow
        }
    } else {
        match key {
            NamedKey::Escape => KeyAction::Close,
            NamedKey::Return => KeyAction::Accept,
            NamedKey::KpEnter => KeyAction::Accept,
            NamedKey::Down => KeyAction::Move(1i32),
            NamedKey::Up => KeyAction::Move(-1i32),
            NamedKey::PageDown => KeyAction::Move(5i32),
            NamedKey::PageUp => KeyAction::Move(-5i32),
            NamedKey::Delete => KeyAction::DeleteSelected,
            NamedKey::P => if ctrl {
                KeyAction::TogglePin
            } else {
                KeyAction::Pass
            },
            NamedKey::Other => KeyAction::Pass,
        }
    }
}

pub fn on_key(key: NamedKey, ch: Option<char>, ctrl: bool, alt: bool, shown: usize) -> (a: KeyAction)
    ensures
        a == on_key_spec(key, ch, ctrl, alt, shown as nat),
{
    if alt {
        match ch {
            Some(c) => {
                if '1' <= c && c <= '9' {
                    let idx: u32 = (c as u32) - ('1' as u32);
                    if (idx as usize) < shown {
                        return KeyAction::QuickPick(idx as i32);
                    }
                    return KeyAction::Swallow;
                }
            },
            None => {},
        }
    }
    match key {
        NamedKey::Escape => KeyAction::Close,
        NamedKey::Return => KeyAction::Accept,
        NamedKey::KpEnter => KeyAction::Accept,
        NamedKey::Down => KeyAction::Move(1),
        NamedKey::Up => KeyAction::Move(-1),
        NamedKey::PageDown => KeyAction::Move(5),
        NamedKey::PageUp => KeyAction::Move(-5),
        NamedKey::Delete => KeyAction::DeleteSelected,
        NamedKey::P => if ctrl {
            KeyAction::TogglePin
        } else {
            KeyAction::Pass
        },
        NamedKey::Other => KeyAction::Pass,
    }
}

/// How long after opening the panel starts closing on focus loss, in
/// milliseconds (until then it is still taking focus).
pub const FOCUS_ARM_MS: u64 = 600;

/// How long after a focus loss the panel checks whether focus came back.
pub const FOCUS_RECHECK_MS: u64 = 200;

/// Delay before the first pointer grab, and between retries, in milliseconds.
pub const FIRST_GRAB_MS: u64 = 40;
pub const GRAB_RETRY_MS: u64 = 50;

/// How many times a failed grab is retried while X maps the window.
pub const GRAB_RETRIES: u32 = 10;

/// The panel closes by itself after this many seconds when it grabs input.
pub const IDLE_CLOSE_SECS: u64 = 120;

/// How the panel behaves.
pub struct PanelPlan {
    /// Transparent gutter around the panel, room for its drop shadow.
    pub margin: i32,
    /// Square corners: without a compositor there are no rounded ones.
    pub square: bool,
    /// Close when focus leaves the panel (unless a grab took over).
    pub close_on_focus_out: bool,
    /// Grab pointer and keyboard so that a click outside closes the panel.
    pub grab: bool,
    /// Close by itself after this many seconds.
    pub idle_close_secs: Option<u64>,
}

/// How the panel behaves for the `blur_close` choice, the session type and
/// whether a compositor runs. Clicking outside closes the panel through a
/// grab on X11; on Wayland a grab on a toplevel never sees outside clicks
/// (and would suppress the focus-out fallback), so only focus-out is used.
pub fn panel_plan(blur_close: bool, wayland: bool, composited: bool) -> (p: PanelPlan)
    ensures
        p.margin == (if composited { 14i32 } else { 0i32 }),
        p.square == !composited,
        p.close_on_focus_out == blur_close,
        p.grab == (blur_close && !wayland),
        p.idle_close_secs == (if blur_close { Some(IDLE_CLOSE_SECS) } else { None }),
{
    PanelPlan {
        margin: if composited { 14 } else { 0 },
        square: !composited,
        close_on_focus_out: blur_close,
        grab: blur_close && !wayland,
        idle_close_secs: if blur_close { Some(IDLE_CLOSE_SECS) } else { None },
    }
}

/// Whether a grab that failed on try `attempt` (from 0) is tried again.
pub fn retry_grab(attempt: u32) -> (b: bool)
    ensures
        b == (attempt < GRAB_RETRIES),
{
    attempt < GRAB_RETRIES
}

/// `v` clamped to `lo..=hi`.
pub open spec fn clamp(v: int, lo: int, hi: int) -> int {
    if v < lo {
        lo
    } else if v > hi {
        hi
    } else {
        v
    }
}

/// The row to select after moving `delta` rows from row `cur` among `n`
/// rows: clamped to the list; none when the list is empty.
pub fn move_selection(cur: i32, delta: i32, n: i32) -> (r: Option<i32>)
    requires
        i32::MIN <= cur + delta <= i32::MAX,
    ensures
        n <= 0 ==> r is None,
        n > 0 ==> r == Some(clamp(cur + delta, 0, n - 1) as i32),
{
    if n <= 0 {
        return None;
    }
    let v: i32 = cur + delta;
    let hi: i32 = n - 1;
    Some(if v < 0 {
        0
    } else if v > hi {
        hi
    } else {
        v
    })
}

/// Where the panel opens for the pointer at (`px`, `py`): centred on it
/// horizontally, 40 pixels above, kept 8 pixels inside the monitor
/// (`x`, `y`, `width`, `height`) when it is known.
pub open spec fn panel_position_spec(px: int, py: int, monitor: Option<(i32, i32, i32, i32)>) -> (int, int) {
    let x = px - PANEL_WIDTH / 2;
    let y = py - 40;
    match monitor {
        Some((gx, gy, gw, gh)) => (
            clamp(x, gx + 8, gx + gw - PANEL_WIDTH - 8),
            clamp(y, gy + 8, gy + gh - PANEL_HEIGHT - 8),
        ),
        None => (x, y),
    }
}

/// Whether the panel position can be computed without overflow, and the
/// monitor (if any) leaves room for the panel (else `clamp` would panic).
pub open spec fn panel_fits(px: int, py: int, monitor: Option<(i32, i32, i32, i32)>) -> bool {
    &&& i32::MIN <= px - PANEL_WIDTH / 2
    &&& i32::MIN <= py - 40
    &&& match monitor {
        Some((gx, gy, gw, gh)) => {
            &&& i32::MIN <= gx + gw <= i32::MAX
            &&& i32::MIN <= gy + gh <= i32::MAX
            &&& i32::MIN <= gx + 8 <= gx + gw - PANEL_WIDTH - 8 <= i32::MAX
            &&& i32::MIN <= gy + 8 <= gy + gh - PANEL_HEIGHT - 8 <= i32::MAX
        },
        None => true,
    }
}

/// Whether `panel_position` can place the panel for this pointer and monitor
/// (`panel_fits`).
pub fn panel_fits_check(px: i32, py: i32, monitor: Option<(i32, i32, i32, i32)>) -> (b: bool)
    ensures
        b == panel_fits(px as int, py as int, monitor),
{
    let x: i64 = px as i64 - (PANEL_WIDTH / 2) as i64;
    let y: i64 = py as i64 - 40;
    if x < i32::MIN as i64 || y < i32::MIN as i64 {
        return false;
    }
    match monitor {
        Some((gx, gy, gw, gh)) => {
            let xr: i64 = gx as i64 + gw as i64;
            let yb: i64 = gy as i64 + gh as i64;
            let xl: i64 = gx as i64 + 8;
            let xh: i64 = xr - PANEL_WIDTH as i64 - 8;
            let yl: i64 = gy as i64 + 8;
            let yh: i64 = yb - PANEL_HEIGHT as i64 - 8;
            i32::MIN as i64 <= xr && xr <= i32::MAX as i64
                && i32::MIN as i64 <= yb && yb <= i32::MAX as i64
                && i32::MIN as i64 <= xl && xl <= xh && xh <= i32::MAX as i64
                && i32::MIN as i64 <= yl && yl <= yh && yh <= i32::MAX as i64
        },
        None => true,
    }
}

pub fn panel_position(px: i32, py: i32, monitor: Option<(i32, i32, i32, i32)>) -> (r: (i32, i32))
    requires
        panel_fits(px as int, py as int, monitor),
    ensures
        (r.0 as int, r.1 as int) == panel_position_spec(px as int, py as int, monitor),
{
    let x: i32 = px - PANEL_WIDTH / 2;
    let y: i32 = py - 40;
    match monitor {
        Some((gx, gy, gw, gh)) => {
            let xl: i32 = gx + 8;
            let xh: i32 = gx + gw - PANEL_WIDTH - 8;
            let yl: i32 = gy + 8;
            let yh: i32 = gy + gh - PANEL_HEIGHT - 8;
            let cx: i32 = if x < xl {
                xl
            } else if x > xh {
                xh
            } else {
                x
            };
            let cy: i32 = if y < yl {
                yl
            } else if y > yh {
                yh
            } else {
                y
            };
            (cx, cy)
        },
        None => (x, y),
    }
}


proof fn lemma_shown_upto_members(entries: Seq<Entry>, query: Seq<char>, n: int, x: usize)
    requires
        0 <= n <= entries.len(),
        entries.len() <= usize::MAX,
    ensures
        shown_upto(entries, query, n).contains(x) <==> (x < n && shows(entries[x as int], query)),
        shown_upto(entries, query, n).len() <= n,
    decreases n,
{
    if n > 0 {
        lemma_shown_upto_members(entries, query, n - 1, x);
        let prev = shown_upto(entries, query, n - 1);
        if shows(entries[n - 1], query) {
            let q = prev.push((n - 1) as usize);
            assert(q[prev.len() as int] == (n - 1) as usize);
            if q.contains(x) {
                let k = choose|k: int| 0 <= k < q.len() && q[k] == x;
                if k < prev.len() {
                    assert(prev[k] == x);
                }
            }
            if prev.contains(x) {
                let k = choose|k: int| 0 <= k < prev.len() && prev[k] == x;
                assert(q[k] == x);
            }
        }
    }
}

/// The search looks at the whole content of a text entry: a text entry is
/// listed only when every word of the lower-cased query occurs in its
/// lower-cased content, and, while no more entries exist than the panel
/// renders, every text entry whose lower-cased content holds every such
/// word is listed.
pub proof fn lemma_search_whole_content(entries: Seq<Entry>, query: Seq<char>)
    requires
        entries.len() <= usize::MAX,
    ensures
        forall|i: int|
            0 <= i < entries.len() && entries[i].kind@ != "image"@ && #[trigger] shown_spec(entries, query).contains(
                i as usize,
            ) ==> forall|k: int|
                0 <= k < words(lowercase(query)).len() ==> contains(
                    lowercase(entries[i].content@),
                    #[trigger] words(lowercase(query))[k],
                ),
        forall|i: int|
            0 <= i < entries.len() && entries.len() <= RENDER_CAP && entries[i].kind@ != "image"@ && (forall|k: int|
                0 <= k < words(lowercase(query)).len() ==> contains(
                    lowercase(entries[i].content@),
                    #[trigger] words(lowercase(query))[k],
                )) ==> #[trigger] shown_spec(entries, query).contains(i as usize),
{
    let n = entries.len() as int;
    let all = shown_upto(entries, query, n);
    assert forall|i: int|
        0 <= i < entries.len() && entries[i].kind@ != "image"@ && #[trigger] shown_spec(entries, query).contains(i as usize)
        implies forall|k: int|
        0 <= k < words(lowercase(query)).len() ==> contains(
            lowercase(entries[i].content@),
            #[trigger] words(lowercase(query))[k],
        ) by {
        let r = shown_spec(entries, query);
        assert(all.contains(i as usize)) by {
            let k = choose|k: int| 0 <= k < r.len() && r[k] == i as usize;
            if all.len() > RENDER_CAP {
                assert(r[k] == all[k]);
            }
        }
        lemma_shown_upto_members(entries, query, n, i as usize);
        assert(shows(entries[i], query));
        assert(haystack(entries[i]) == lowercase(entries[i].content@));
    }
    assert forall|i: int|
        0 <= i < entries.len() && entries.len() <= RENDER_CAP && entries[i].kind@ != "image"@ && (forall|k: int|
            0 <= k < words(lowercase(query)).len() ==> contains(
                lowercase(entries[i].content@),
                #[trigger] words(lowercase(query))[k],
            )) implies #[trigger] shown_spec(entries, query).contains(i as usize) by {
        lemma_shown_upto_members(entries, query, n, i as usize);
        assert(haystack(entries[i]) == lowercase(entries[i].content@));
        assert(shows(entries[i], query));
        assert(all.contains(i as usize));
        assert(all.len() <= RENDER_CAP);
    }
}

} // verus!

