//! What gets recorded: the content hash that deduplicates entries, the
//! ignore rules that keep text out, and the row an image is stored as.
use vstd::prelude::*;
use sha2::Digest;
use crate::text::{chars_of, string_of, trim, trim_chars, lines, split_lines, view_all, append_chars};
use crate::db::{MAX_TEXT_LEN, MAX_IMAGE_BYTES};

verus! {

/// `regex::Regex`: a compiled regular expression, carried as it is.
#[verifier::external_type_specification]
#[verifier::external_body]
pub struct ExRegex(regex::Regex);

/// `regex::Error`: why a pattern did not compile, carried as it is.
#[verifier::external_type_specification]
#[verifier::external_body]
pub struct ExRegexError(regex::Error);

/// SHA-256 of `data` (the 32-byte digest).
pub uninterp spec fn sha256(data: Seq<u8>) -> Seq<u8>;

/// `sha2::Sha256::digest`: the digest of `data`, 32 bytes long.
#[verifier::external_body]
fn sha256_digest(data: &[u8]) -> (d: Vec<u8>)
    ensures
        d@ == sha256(data@),
        d@.len() == 32,
{
    sha2::Sha256::digest(data).to_vec()
}

/// The lowercase hex digit for `v < 16`.
pub open spec fn hex_digit(v: int) -> char {
    if v < 10 {
        (48 + v) as char
    } else {
        (87 + v) as char
    }
}

/// Lowercase hex of `bytes`, two digits per byte (what `{:x}` writes for a digest).
pub open spec fn hex_lower(bytes: Seq<u8>) -> Seq<char>
    decreases bytes.len(),
{
    if bytes.len() == 0 {
        seq![]
    } else {
        hex_lower(bytes.drop_last()) + seq![
            hex_digit(bytes.last() as int / 16),
            hex_digit(bytes.last() as int % 16),
        ]
    }
}

fn hex_digit_exec(v: u8) -> (c: char)
    requires
        v < 16,
    ensures
        c == hex_digit(v as int),
{
    if v < 10 {
        (48u8 + v) as char
    } else {
        (87u8 + v) as char
    }
}

/// Whether `c` is a lowercase hex digit.
pub open spec fn is_hex_digit(c: char) -> bool {
    ('0' <= c <= '9') || ('a' <= c <= 'f')
}

/// Hex of `bytes` is two lowercase hex digits per byte.
pub proof fn lemma_hex_len(bytes: Seq<u8>)
    ensures
        hex_lower(bytes).len() == 2 * bytes.len(),
        forall|i: int| 0 <= i < hex_lower(bytes).len() ==> is_hex_digit(#[trigger] hex_lower(bytes)[i]),
    decreases bytes.len(),
{
    if bytes.len() > 0 {
        let d = bytes.drop_last();
        lemma_hex_len(d);
        let b = bytes.last() as int;
        let h = hex_lower(bytes);
        let p = hex_lower(d);
        assert forall|i: int| 0 <= i < h.len() implies is_hex_digit(#[trigger] h[i]) by {
            if i < p.len() {
                assert(h[i] == p[i]);
            } else if i == p.len() {
                assert(h[i] == hex_digit(b / 16));
            } else {
                assert(h[i] == hex_digit(b % 16));
            }
        }
    }
}

/// Lowercase hex of `bytes`.
pub fn hex(bytes: &[u8]) -> (s: Vec<char>)
    ensures
        s@ == hex_lower(bytes@),
{
    let mut out: Vec<char> = Vec::new();
    let mut i: usize = 0;
    while i < bytes.len()
        invariant
            i <= bytes@.len(),
            out@ == hex_lower(bytes@.take(i as int)),
        decreases bytes@.len() - i,
    {
        let b: u8 = bytes[i];
        out.push(hex_digit_exec(b / 16));
        out.push(hex_digit_exec(b % 16));
        assert(bytes@.take(i + 1).drop_last() =~= bytes@.take(i as int));
        assert(out@ =~= hex_lower(bytes@.take(i + 1)));
        i = i + 1;
    }
    assert(bytes@.take(bytes@.len() as int) =~= bytes@);
    out
}

/// The hash under which content is deduplicated: lowercase hex SHA-256.
pub open spec fn content_hash_spec(data: Seq<u8>) -> Seq<char> {
    hex_lower(sha256(data))
}

/// Lowercase hex SHA-256 of `data`, 64 characters.
pub fn content_hash(data: &[u8]) -> (h: String)
    ensures
        h@ == content_hash_spec(data@),
        h@.len() == 64,
        forall|i: int| 0 <= i < 64 ==> is_hex_digit(#[trigger] h@[i]),
{
    let d = sha256_digest(data);
    let hx = hex(d.as_slice());
    proof {
        lemma_hex_len(d@);
    }
    string_of(&hx)
}

/// Whether `pattern` is a regular expression the regex crate accepts.
pub uninterp spec fn regex_is_valid(pattern: Seq<char>) -> bool;

/// Whether the regular expression `pattern` matches somewhere in `text`.
pub uninterp spec fn regex_matches(pattern: Seq<char>, text: Seq<char>) -> bool;

/// An ignore rule: a pattern and its compiled form. Only `IgnoreRule::compile`
/// builds one, so `regex` is always the compilation of `pattern`.
pub struct IgnoreRule {
    pattern: String,
    regex: regex::Regex,
}

/// `regex::Regex::new`: Ok exactly for the patterns the crate accepts, else
/// the crate's error (which says nothing here beyond that it is one).
#[verifier::external_body]
fn compile_regex(pattern: &str) -> (r: Result<regex::Regex, regex::Error>)
    ensures
        r is Ok <==> regex_is_valid(pattern@),
{
    regex::Regex::new(pattern)
}

/// `regex::Regex::is_match` on the rule's compiled pattern: whether the
/// pattern matches somewhere in `text`. Relies on `rule.regex` having been
/// compiled from `rule.pattern`, which `IgnoreRule::compile` ensures.
#[verifier::external_body]
fn rule_is_match(rule: &IgnoreRule, text: &str) -> (b: bool)
    ensures
        b == regex_matches(rule.pattern@, text@),
{
    rule.regex.is_match(text)
}

impl IgnoreRule {
    /// The pattern of this rule.
    pub closed spec fn pattern_view(&self) -> Seq<char> {
        self.pattern@
    }

    /// Compiles `pattern`; the error is the regex crate's.
    pub fn compile(pattern: &str) -> (r: Result<IgnoreRule, regex::Error>)
        ensures
            r is Ok <==> regex_is_valid(pattern@),
            r matches Ok(rule) ==> rule.pattern_view() == pattern@,
    {
        match compile_regex(pattern) {
            Ok(re) => Ok(IgnoreRule { pattern: string_of(&chars_of(pattern)), regex: re }),
            Err(e) => Err(e),
        }
    }

    /// The pattern text.
    pub fn pattern(&self) -> (r: String)
        ensures
            r@ == self.pattern_view(),
    {
        string_of(&chars_of(self.pattern.as_str()))
    }

    /// Whether this rule matches somewhere in `text`.
    pub fn is_match(&self, text: &str) -> (b: bool)
        ensures
            b == regex_matches(self.pattern_view(), text@),
    {
        rule_is_match(self, text)
    }
}

/// The pattern lines of an ignore file among `ls`: trimmed, neither blank
/// nor comments.
pub open spec fn pattern_lines(ls: Seq<Seq<char>>) -> Seq<Seq<char>>
    decreases ls.len(),
{
    if ls.len() == 0 {
        seq![]
    } else {
        let prev = pattern_lines(ls.drop_last());
        let t = trim(ls.last());
        if t.len() == 0 || t[0] == '#' {
            prev
        } else {
            prev.push(t)
        }
    }
}

/// The rules read from an ignore file: those that compiled, and for the
/// others the pattern with the regex crate's error.
pub struct IgnoreRules {
    pub rules: Vec<IgnoreRule>,
    pub rejected: Vec<(String, regex::Error)>,
}

/// The patterns of `rules`.
pub open spec fn rules_patterns(rules: Seq<IgnoreRule>) -> Seq<Seq<char>> {
    Seq::new(rules.len(), |i: int| rules[i].pattern_view())
}

/// The patterns of rejected rules.
pub open spec fn rejected_patterns(rejected: Seq<(String, regex::Error)>) -> Seq<Seq<char>> {
    Seq::new(rejected.len(), |i: int| rejected[i].0@)
}

/// The patterns among `ps` that compile (`valid`) or do not (`!valid`), in order.
pub open spec fn patterns_where(ps: Seq<Seq<char>>, valid: bool) -> Seq<Seq<char>>
    decreases ps.len(),
{
    if ps.len() == 0 {
        seq![]
    } else {
        let prev = patterns_where(ps.drop_last(), valid);
        if regex_is_valid(ps.last()) == valid {
            prev.push(ps.last())
        } else {
            prev
        }
    }
}

/// Reads ignore.txt text: one regex per line; blank lines and `#` comments
/// are skipped. The patterns that compile become rules, in file order; the
/// others come back as rejected, in file order, with the regex crate's error.
pub fn load_ignore_rules(text: &str) -> (r: IgnoreRules)
    ensures
        rules_patterns(r.rules@) == patterns_where(pattern_lines(lines(text@)), true),
        rejected_patterns(r.rejected@) == patterns_where(pattern_lines(lines(text@)), false),
{
    let tc = chars_of(text);
    let ls = split_lines(&tc);
    let mut rules: Vec<IgnoreRule> = Vec::new();
    let mut rejected: Vec<(String, regex::Error)> = Vec::new();
    let mut i: usize = 0;
    while i < ls.len()
        invariant
            i <= ls@.len(),
            view_all(ls@) == lines(text@),
            rules_patterns(rules@) == patterns_where(pattern_lines(view_all(ls@).take(i as int)), true),
            rejected_patterns(rejected@) == patterns_where(pattern_lines(view_all(ls@).take(i as int)), false),
        decreases ls@.len() - i,
    {
        let ghost prev = pattern_lines(view_all(ls@).take(i as int));
        assert(view_all(ls@).take(i + 1).drop_last() =~= view_all(ls@).take(i as int));
        assert(view_all(ls@).take(i + 1).last() == ls@[i as int]@);
        let t = trim_chars(&ls[i]);
        if t.len() > 0 && t[0] != '#' {
            let pat = string_of(&t);
            let ghost next = prev.push(t@);
            assert(next.drop_last() =~= prev);
            assert(next.last() == t@);
            match IgnoreRule::compile(pat.as_str()) {
                Ok(rule) => {
                    let ghost before = rules_patterns(rules@);
                    rules.push(rule);
                    assert(rules_patterns(rules@) =~= before.push(t@));
                },
                Err(e) => {
                    let ghost before = rejected_patterns(rejected@);
                    rejected.push((pat, e));
                    assert(rejected_patterns(rejected@) =~= before.push(t@));
                },
            }
        }
        i = i + 1;
    }
    assert(view_all(ls@).take(ls@.len() as int) =~= view_all(ls@));
    IgnoreRules { rules, rejected }
}

/// Whether some rule of `rules` matches in `text`.
pub open spec fn any_rule_matches(rules: Seq<IgnoreRule>, text: Seq<char>) -> bool {
    exists|i: int| 0 <= i < rules.len() && regex_matches(#[trigger] rules[i].pattern_view(), text)
}

/// Whether `text` is recorded at all: it is not blank, at most
/// `MAX_TEXT_LEN` bytes long, and no ignore rule matches it.
pub open spec fn text_admitted(text: &str, rules: Seq<IgnoreRule>) -> bool {
    &&& trim(text@).len() > 0
    &&& text.len() <= MAX_TEXT_LEN
    &&& !any_rule_matches(rules, text@)
}

/// The hash under which `text` is stored, or `None` when it is not recorded
/// (blank, longer than `MAX_TEXT_LEN` bytes, or matched by an ignore rule).
pub fn admit_text(text: &str, rules: &Vec<IgnoreRule>) -> (r: Option<String>)
    ensures
        r is Some <==> text_admitted(text, rules@),
        r matches Some(h) ==> h@ == content_hash_spec(vstd::utf8::encode_utf8(text@)),
{
    let tc = chars_of(text);
    let t = trim_chars(&tc);
    if t.len() == 0 || text.len() > MAX_TEXT_LEN {
        return None;
    }
    let mut i: usize = 0;
    while i < rules.len()
        invariant
            i <= rules@.len(),
            forall|k: int| 0 <= k < i ==> !regex_matches(#[trigger] rules@[k].pattern_view(), text@),
        decreases rules@.len() - i,
    {
        if rules[i].is_match(text) {
            return None;
        }
        i = i + 1;
    }
    assert(!any_rule_matches(rules@, text@)) by {
        if any_rule_matches(rules@, text@) {
            let k = choose|k: int|
                0 <= k < rules@.len() && regex_matches(#[trigger] rules@[k].pattern_view(), text@);
        }
    }
    Some(content_hash(text.as_bytes()))
}

/// The row an image is stored as: its content hash, the file it is saved
/// to, and the meta text "mime|WxH - size".
pub struct ImageRecord {
    pub hash: String,
    pub path: String,
    pub meta: String,
}

/// The file an image with hash `hash` and type `mime` is saved to: the
/// first 20 hex digits of the hash, with the type's extension.
pub open spec fn image_file_spec(dir: Seq<char>, hash: Seq<char>, mime: Seq<char>) -> Seq<char> {
    crate::paths::join_path(dir, hash.take(20) + seq!['.'] + crate::image::ext_for_spec(mime))
}

/// The meta text of an image: "mime|WxH - size", or "mime|mime - size" when
/// the header gives no dimensions.
pub open spec fn image_meta_spec(data: Seq<u8>, mime: Seq<char>) -> Seq<char> {
    let size = crate::util::human_bytes_spec(data.len());
    match crate::image::image_size_spec(data) {
        Some((w, h)) => mime + seq!['|'] + crate::num::decimal(w as nat) + seq!['x']
            + crate::num::decimal(h as nat) + " - "@ + size,
        None => mime + seq!['|'] + mime + " - "@ + size,
    }
}

/// The row for storing image `data` of type `mime` in `image_dir`, or `None`
/// when it is not recorded (empty or larger than `MAX_IMAGE_BYTES`). The
/// caller writes the file when it does not exist yet.
pub fn image_record(data: &[u8], mime: &str, image_dir: &str) -> (r: Option<ImageRecord>)
    ensures
        r is Some <==> (data@.len() > 0 && data@.len() <= MAX_IMAGE_BYTES),
        r matches Some(rec) ==> {
            &&& rec.hash@ == content_hash_spec(data@)
            &&& rec.path@ == image_file_spec(image_dir@, content_hash_spec(data@), mime@)
            &&& rec.meta@ == image_meta_spec(data@, mime@)
        },
{
    if data.len() == 0 || data.len() > MAX_IMAGE_BYTES {
        return None;
    }
    let hash = content_hash(data);
    let hc = chars_of(hash.as_str());
    let mut name = crate::text::slice_chars(&hc, 0, 20);
    assert(name@ =~= hc@.take(20));
    name.push('.');
    let ext = chars_of(crate::image::ext_for(mime));
    append_chars(&mut name, &ext);
    let path = crate::paths::join(image_dir, string_of(&name).as_str());
    let mc = chars_of(mime);
    let mut meta: Vec<char> = Vec::new();
    append_chars(&mut meta, &mc);
    meta.push('|');
    match crate::image::image_size(data) {
        Some((w, h)) => {
            append_chars(&mut meta, &crate::num::u64_chars(w as u64));
            meta.push('x');
            append_chars(&mut meta, &crate::num::u64_chars(h as u64));
        },
        None => {
            append_chars(&mut meta, &mc);
        },
    }
    append_chars(&mut meta, &chars_of(" - "));
    let size = crate::util::human_bytes(data.len());
    append_chars(&mut meta, &chars_of(size.as_str()));
    assert(meta@ =~= image_meta_spec(data@, mime@));
    Some(ImageRecord { hash, path, meta: string_of(&meta) })
}

} // verus!
