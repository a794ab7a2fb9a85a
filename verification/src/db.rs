//! History entries and the rules of the history store: which entries are
//! kept, in which order they are listed, how identical content is merged,
//! and what a stored text or image row holds. The caller runs the SQL.
use vstd::prelude::*;
use crate::text::{
    chars_of, string_of, find_char, lemma_find_char, slice_chars, starts_with, starts_with_chars,
    append_chars,
};

verus! {

/// Maximum number of entries kept (text and images share the budget). Pinned
/// entries do NOT count against it. Change with: cliphist set max-entries N
pub const DEFAULT_MAX_ENTRIES: usize = 20;

/// Longest text that is recorded, in bytes.
pub const MAX_TEXT_LEN: usize = 2_000_000;

/// Largest image that is recorded, in bytes.
pub const MAX_IMAGE_BYTES: usize = 20 * 1024 * 1024;

/// One row of the history. `ts_micros` is the time of the last copy, in
/// microseconds since the epoch (the database stores seconds as a float).
#[derive(Clone, Debug)]
pub struct Entry {
    pub id: i64,
    pub content: String,
    pub kind: String,
    pub path: Option<String>,
    pub meta: Option<String>,
    pub ts_micros: i64,
    pub pinned: bool,
    pub hits: i64,
    pub hash: Option<String>,
}

/// What follows the last `c` in `m` (all of `m` when there is none).
pub open spec fn after_last(m: Seq<char>, c: char) -> Seq<char>
    decreases m.len(),
{
    if m.len() == 0 {
        m
    } else if m.last() == c {
        seq![]
    } else {
        after_last(m.drop_last(), c).push(m.last())
    }
}

/// The mime type of an image entry, kept at the front of `meta`
/// ("image/png|1920x1080 - 245 KB"); "image/png" when there is none.
pub open spec fn mime_spec(meta: Option<Seq<char>>) -> Seq<char> {
    match meta {
        Some(m) => {
            let first = m.take(find_char(m, '|'));
            if starts_with(first, "image/"@) {
                first
            } else {
                "image/png"@
            }
        },
        None => "image/png"@,
    }
}

/// The human part of `meta`: what follows its last `|`.
pub open spec fn meta_text_spec(meta: Option<Seq<char>>) -> Seq<char> {
    match meta {
        Some(m) => after_last(m, '|'),
        None => seq![],
    }
}

/// The view of an optional string.
pub open spec fn opt_view(o: Option<String>) -> Option<Seq<char>> {
    match o {
        Some(s) => Some(s@),
        None => None,
    }
}

fn after_last_exec(m: &Vec<char>, c: char) -> (r: Vec<char>)
    ensures
        r@ == after_last(m@, c),
{
    let mut j: usize = m.len();
    assert(m@.take(j as int) =~= m@);
    assert(m@ + m@.skip(j as int) =~= m@);
    while j > 0 && m[j - 1] != c
        invariant
            j <= m@.len(),
            after_last(m@, c) == after_last(m@.take(j as int), c) + m@.skip(j as int),
        decreases j,
    {
        let ghost t = m@.take(j as int);
        assert(t.drop_last() =~= m@.take(j - 1));
        assert(t.last() == m@[j - 1]);
        assert(after_last(m@.take(j - 1), c).push(m@[j - 1]) + m@.skip(j as int)
            =~= after_last(m@.take(j - 1), c) + m@.skip(j - 1));
        j = j - 1;
    }
    proof {
        if j == 0 {
            assert(m@.take(0) =~= Seq::<char>::empty());
        }
        assert(after_last(m@.take(j as int), c) =~= Seq::<char>::empty());
        assert(Seq::<char>::empty() + m@.skip(j as int) =~= m@.skip(j as int));
    }
    slice_chars(m, j, m.len())
}

impl Entry {
    /// Whether this entry holds an image (else text).
    pub open spec fn is_image_spec(&self) -> bool {
        self.kind@ == "image"@
    }

    pub fn is_image(&self) -> (b: bool)
        ensures
            b == self.is_image_spec(),
    {
        crate::text::str_eq(self.kind.as_str(), "image")
    }

    /// The mime is stored at the front of `meta`: "image/png|1920x1080 - 245 KB"
    pub fn mime(&self) -> (r: String)
        ensures
            r@ == mime_spec(opt_view(self.meta)),
    {
        proof {
            reveal_strlit("image/");
            reveal_strlit("image/png");
        }
        match &self.meta {
            Some(m) => {
                let mc = chars_of(m.as_str());
                let k: usize = crate::settings::find_char_exec(&mc, '|');
                let first = slice_chars(&mc, 0, k);
                assert(first@ =~= mc@.take(k as int));
                let prefix = chars_of("image/");
                if starts_with_chars(&first, &prefix) {
                    string_of(&first)
                } else {
                    string_of(&chars_of("image/png"))
                }
            },
            None => string_of(&chars_of("image/png")),
        }
    }

    /// The dimensions-and-size text of an image entry.
    pub fn meta_text(&self) -> (r: String)
        ensures
            r@ == meta_text_spec(opt_view(self.meta)),
    {
        match &self.meta {
            Some(m) => {
                let mc = chars_of(m.as_str());
                string_of(&after_last_exec(&mc, '|'))
            },
            None => string_of(&Vec::new()),
        }
    }

    /// What the list shows for this entry.
    pub open spec fn label_spec(&self, width: nat) -> Seq<char> {
        if self.is_image_spec() {
            "[image] "@ + meta_text_spec(opt_view(self.meta))
        } else {
            crate::util::preview_spec(self.content@, width)
        }
    }

    pub fn label(&self, width: usize) -> (r: String)
        ensures
            r@ == self.label_spec(width as nat),
    {
        if self.is_image() {
            let mut out = chars_of("[image] ");
            let mt = self.meta_text();
            let mc = chars_of(mt.as_str());
            append_chars(&mut out, &mc);
            string_of(&out)
        } else {
            crate::util::preview(self.content.as_str(), width)
        }
    }
}


/// Columns that databases from older builds can be missing, with the
/// definition that adds each, in the order they are added.
pub open spec fn migration_columns() -> Seq<(Seq<char>, Seq<char>)> {
    seq![
        ("kind"@, "kind TEXT NOT NULL DEFAULT 'text'"@),
        ("path"@, "path TEXT"@),
        ("meta"@, "meta TEXT"@),
        ("hash"@, "hash TEXT"@),
        ("hits"@, "hits INTEGER NOT NULL DEFAULT 1"@),
        ("pinned"@, "pinned INTEGER NOT NULL DEFAULT 0"@),
    ]
}

/// The definitions of the migration columns among the first `n` that are
/// not in `have`.
pub open spec fn missing_upto(have: Seq<Seq<char>>, n: int) -> Seq<Seq<char>>
    decreases n,
{
    if n <= 0 {
        seq![]
    } else {
        let prev = missing_upto(have, n - 1);
        if have.contains(migration_columns()[n - 1].0) {
            prev
        } else {
            prev.push(migration_columns()[n - 1].1)
        }
    }
}

/// The names of the migration columns among the first `n` that are not in
/// `have`: the columns a migration adds.
pub open spec fn missing_names_upto(have: Seq<Seq<char>>, n: int) -> Seq<Seq<char>>
    decreases n,
{
    if n <= 0 {
        seq![]
    } else {
        let prev = missing_names_upto(have, n - 1);
        if have.contains(migration_columns()[n - 1].0) {
            prev
        } else {
            prev.push(migration_columns()[n - 1].0)
        }
    }
}

proof fn lemma_missing_names_cover(have: Seq<Seq<char>>, n: int, k: int)
    requires
        0 <= k < n <= 6,
        !have.contains(migration_columns()[k].0),
    ensures
        missing_names_upto(have, n).contains(migration_columns()[k].0),
    decreases n,
{
    let prev = missing_names_upto(have, n - 1);
    if k < n - 1 {
        lemma_missing_names_cover(have, n - 1, k);
        let i = choose|i: int| 0 <= i < prev.len() && prev[i] == migration_columns()[k].0;
        if !have.contains(migration_columns()[n - 1].0) {
            assert(prev.push(migration_columns()[n - 1].0)[i] == migration_columns()[k].0);
        }
    } else {
        assert(prev.push(migration_columns()[k].0)[prev.len() as int] == migration_columns()[k].0);
    }
}

proof fn lemma_nothing_missing(have: Seq<Seq<char>>, n: int)
    requires
        0 <= n <= 6,
        forall|k: int| 0 <= k < n ==> have.contains(#[trigger] migration_columns()[k].0),
    ensures
        missing_upto(have, n) == Seq::<Seq<char>>::empty(),
    decreases n,
{
    if n > 0 {
        lemma_nothing_missing(have, n - 1);
        assert(have.contains(migration_columns()[n - 1].0));
    }
}

/// Once the columns a migration adds are there, migrating again adds nothing.
pub proof fn lemma_migration_settles(have: Seq<Seq<char>>)
    ensures
        missing_upto(have + missing_names_upto(have, 6), 6) == Seq::<Seq<char>>::empty(),
{
    let added = missing_names_upto(have, 6);
    let after = have + added;
    assert forall|k: int| 0 <= k < 6 implies after.contains(#[trigger] migration_columns()[k].0) by {
        let name = migration_columns()[k].0;
        if have.contains(name) {
            let i = choose|i: int| 0 <= i < have.len() && have[i] == name;
            assert(after[i] == name);
        } else {
            lemma_missing_names_cover(have, 6, k);
            let i = choose|i: int| 0 <= i < added.len() && added[i] == name;
            assert(after[have.len() + i] == name);
        }
    }
    lemma_nothing_missing(after, 6);
}

fn names_contain(have: &Vec<String>, name: &str) -> (b: bool)
    ensures
        b == crate::text::view_all_strings(have@).contains(name@),
{
    let mut i: usize = 0;
    while i < have.len()
        invariant
            i <= have@.len(),
            forall|k: int| 0 <= k < i ==> #[trigger] crate::text::view_all_strings(have@)[k] != name@,
        decreases have@.len() - i,
    {
        if crate::text::str_eq(have[i].as_str(), name) {
            assert(crate::text::view_all_strings(have@)[i as int] == name@);
            return true;
        }
        i = i + 1;
    }
    false
}

/// The `ALTER TABLE entries ADD COLUMN` definitions for the columns that the
/// table (with columns `have`) lacks. Without `hash` every insert fails, so
/// very old databases need it too.
pub fn missing_columns(have: &Vec<String>) -> (r: Vec<&'static str>)
    ensures
        Seq::new(r@.len(), |i: int| r@[i]@) == missing_upto(crate::text::view_all_strings(have@), 6),
{
    let names: [&'static str; 6] = ["kind", "path", "meta", "hash", "hits", "pinned"];
    let ddls: [&'static str; 6] = [
        "kind TEXT NOT NULL DEFAULT 'text'",
        "path TEXT",
        "meta TEXT",
        "hash TEXT",
        "hits INTEGER NOT NULL DEFAULT 1",
        "pinned INTEGER NOT NULL DEFAULT 0",
    ];
    let ghost hv = crate::text::view_all_strings(have@);
    let mut out: Vec<&'static str> = Vec::new();
    let mut i: usize = 0;
    while i < 6
        invariant
            i <= 6,
            hv == crate::text::view_all_strings(have@),
            forall|k: int| 0 <= k < 6 ==> (#[trigger] names@[k])@ == migration_columns()[k].0,
            forall|k: int| 0 <= k < 6 ==> (#[trigger] ddls@[k])@ == migration_columns()[k].1,
            Seq::new(out@.len(), |k: int| out@[k]@) == missing_upto(hv, i as int),
        decreases 6 - i,
    {
        let ghost before = Seq::new(out@.len(), |k: int| out@[k]@);
        if !names_contain(have, names[i]) {
            out.push(ddls[i]);
            assert(Seq::new(out@.len(), |k: int| out@[k]@) =~= before.push(ddls@[i as int]@));
        }
        i = i + 1;
    }
    out
}

/// Whether `e` is an image row whose file is `p`: its path names the same
/// file, compared by components as `Path` compares.
pub open spec fn points_at(e: Entry, p: Seq<char>) -> bool {
    e.is_image_spec() && match e.path {
        Some(q) => crate::paths::same_path(q@, p),
        None => false,
    }
}

/// Whether some row of `rows` is an image stored in file `p`.
pub open spec fn referenced(rows: Seq<Entry>, p: Seq<char>) -> bool {
    exists|i: int| 0 <= i < rows.len() && points_at(#[trigger] rows[i], p)
}

/// The files among `files` (in order) that no image row refers to.
pub open spec fn orphans_upto(rows: Seq<Entry>, files: Seq<Seq<char>>, n: int) -> Seq<Seq<char>>
    decreases n,
{
    if n <= 0 {
        seq![]
    } else {
        let prev = orphans_upto(rows, files, n - 1);
        if referenced(rows, files[n - 1]) {
            prev
        } else {
            prev.push(files[n - 1])
        }
    }
}

fn is_referenced(rows: &Vec<Entry>, p: &str) -> (b: bool)
    ensures
        b == referenced(rows@, p@),
{
    let mut i: usize = 0;
    while i < rows.len()
        invariant
            i <= rows@.len(),
            forall|k: int| 0 <= k < i ==> !points_at(#[trigger] rows@[k], p@),
        decreases rows@.len() - i,
    {
        if rows[i].is_image() {
            match &rows[i].path {
                Some(q) => {
                    if crate::paths::same_file(q.as_str(), p) {
                        return true;
                    }
                },
                None => {},
            }
        }
        i = i + 1;
    }
    false
}

/// Image files no database row points at any more: the ones among `files`
/// (the image directory's files) that no image row's path names, paths
/// compared by their components.
pub fn orphan_files(rows: &Vec<Entry>, files: &Vec<String>) -> (r: Vec<String>)
    ensures
        crate::text::view_all_strings(r@) == orphans_upto(
            rows@,
            crate::text::view_all_strings(files@),
            files@.len() as int,
        ),
{
    let ghost fv = crate::text::view_all_strings(files@);
    let mut out: Vec<String> = Vec::new();
    let mut i: usize = 0;
    while i < files.len()
        invariant
            i <= files@.len(),
            fv == crate::text::view_all_strings(files@),
            crate::text::view_all_strings(out@) == orphans_upto(rows@, fv, i as int),
        decreases files@.len() - i,
    {
        let ghost before = crate::text::view_all_strings(out@);
        if !is_referenced(rows, files[i].as_str()) {
            out.push(files[i].clone());
            assert(crate::text::view_all_strings(out@) =~= before.push(fv[i as int]));
        }
        i = i + 1;
    }
    out
}
/// How many unpinned entries are kept: the `max_entries` setting of
/// `settings_text` when it is a positive integer, else `DEFAULT_MAX_ENTRIES`.
pub fn max_entries(settings_text: &str) -> (n: usize)
    ensures
        n == crate::settings::setting_usize_spec(settings_text@, "max_entries"@, DEFAULT_MAX_ENTRIES),
        n > 0,
{
    crate::settings::setting_usize(settings_text, "max_entries", DEFAULT_MAX_ENTRIES)
}

/// The settings text `settings_text` with `max_entries` set to `n`, written
/// in decimal; `max_entries` reads it back as `n`.
pub fn set_max_entries(settings_text: &str, n: usize) -> (r: String)
    requires
        n > 0,
    ensures
        r@ == crate::settings::set_setting_spec(settings_text@, "max_entries"@, crate::num::decimal(n as nat)),
        crate::settings::setting_usize_spec(r@, "max_entries"@, DEFAULT_MAX_ENTRIES) == n,
{
    let v = crate::text::string_of(&crate::num::u64_chars(n as u64));
    let r = crate::settings::set_setting(settings_text, "max_entries", v.as_str());
    proof {
        lemma_max_entries_reads_back(settings_text@, n);
    }
    r
}

/// After `cliphist set max-entries n` wrote `n` in decimal, the limit read
/// from the settings is `n`.
pub proof fn lemma_max_entries_reads_back(text: Seq<char>, n: usize)
    requires
        n > 0,
    ensures
        crate::settings::setting_usize_spec(
            crate::settings::set_setting_spec(text, "max_entries"@, crate::num::decimal(n as nat)),
            "max_entries"@,
            DEFAULT_MAX_ENTRIES,
        ) == n,
{
    reveal_strlit("max_entries");
    let key = "max_entries"@;
    let d = crate::num::decimal(n as nat);
    crate::num::lemma_decimal_digits(n as nat);
    assert(!crate::text::is_ws(key[0]));
    assert(!crate::text::is_ws(key.last()));
    assert(crate::text::trim_start(key) == key);
    assert(crate::text::trim_end(key) == key);
    assert forall|i: int| 0 <= i < key.len() implies #[trigger] key[i] != '=' && key[i] != '\n' by {}
    assert(crate::settings::writable_key(key));
    assert forall|i: int| 0 <= i < d.len() implies #[trigger] d[i] != '\n' by {
        assert(crate::num::is_digit(d[i]));
    }
    assert(crate::num::is_digit(d[0]));
    assert(crate::num::is_digit(d.last()));
    assert(crate::text::trim_start(d) == d);
    assert(crate::text::trim_end(d) == d);
    crate::settings::lemma_setting_after_set(text, key, d);
    crate::num::lemma_parse_unsigned_decimal(n as nat, usize::MAX as nat);
}


proof fn lemma_orphans_unreferenced(rows: Seq<Entry>, files: Seq<Seq<char>>, n: int, x: Seq<char>)
    requires
        0 <= n <= files.len(),
        orphans_upto(rows, files, n).contains(x),
    ensures
        !referenced(rows, x),
        files.contains(x),
    decreases n,
{
    let prev = orphans_upto(rows, files, n - 1);
    if prev.contains(x) {
        lemma_orphans_unreferenced(rows, files, n - 1, x);
    } else {
        let q = orphans_upto(rows, files, n);
        let k = choose|k: int| 0 <= k < q.len() && q[k] == x;
        assert(!referenced(rows, files[n - 1]));
        if !referenced(rows, files[n - 1]) {
            assert(q == prev.push(files[n - 1]));
            if k < prev.len() {
                assert(prev[k] == x);
            }
            assert(x == files[n - 1]);
        }
    }
}

/// Pruning never deletes the file of an image entry, pinned or not: a file
/// that the path of any image row names (compared by components) is not an
/// orphan. Every orphan is one of the files, and no image row names it.
pub proof fn lemma_orphans_spare_image_files(rows: Seq<Entry>, files: Seq<Seq<char>>)
    ensures
        forall|i: int, j: int|
            0 <= i < rows.len() && 0 <= j < files.len() && rows[i].kind@ == "image"@ && (match #[trigger] rows[i].path {
                Some(q) => crate::paths::same_path(q@, #[trigger] files[j]),
                None => false,
            }) ==> !orphans_upto(rows, files, files.len() as int).contains(files[j]),
        forall|x: Seq<char>|
            #[trigger] orphans_upto(rows, files, files.len() as int).contains(x) ==> files.contains(x) && forall|i: int|
                0 <= i < rows.len() && rows[i].kind@ == "image"@ ==> !(match rows[i].path {
                    Some(q) => crate::paths::same_path(q@, x),
                    None => false,
                }),
{
    let n = files.len() as int;
    assert forall|i: int, j: int|
        0 <= i < rows.len() && 0 <= j < files.len() && rows[i].kind@ == "image"@ && (match #[trigger] rows[i].path {
            Some(q) => crate::paths::same_path(q@, #[trigger] files[j]),
            None => false,
        }) implies !orphans_upto(rows, files, n).contains(files[j]) by {
        assert(points_at(rows[i], files[j]));
        assert(referenced(rows, files[j]));
        if orphans_upto(rows, files, n).contains(files[j]) {
            lemma_orphans_unreferenced(rows, files, n, files[j]);
        }
    }
    assert forall|x: Seq<char>| #[trigger] orphans_upto(rows, files, n).contains(x) implies files.contains(x) && forall|i: int|
        0 <= i < rows.len() && rows[i].kind@ == "image"@ ==> !(match rows[i].path {
            Some(q) => crate::paths::same_path(q@, x),
            None => false,
        }) by {
        lemma_orphans_unreferenced(rows, files, n, x);
        assert forall|i: int| 0 <= i < rows.len() && rows[i].kind@ == "image"@ implies !(match rows[i].path {
            Some(q) => crate::paths::same_path(q@, x),
            None => false,
        }) by {
            if match rows[i].path {
                Some(q) => crate::paths::same_path(q@, x),
                None => false,
            } {
                assert(points_at(rows[i], x));
            }
        }
    }
}

} // verus!

