//! Helpers of the log-to-records tool: reading `key: value` declarations,
//! splitting a value into words, and quoting a field.

use vstd::prelude::*;
use vstd::string::{StrSliceExecFns, StringSliceAdditionalSpecFns};
use vstd::utf8::encode_utf8;
use crate::lexer::chars_of;

verus! {

/// A character with the Unicode `White_Space` property.
pub open spec fn is_white(c: char) -> bool {
    ('\u{9}' <= c && c <= '\u{D}') || c == ' ' || c == '\u{85}' || c == '\u{A0}' || c == '\u{1680}'
        || ('\u{2000}' <= c && c <= '\u{200A}') || c == '\u{2028}' || c == '\u{2029}'
        || c == '\u{202F}' || c == '\u{205F}' || c == '\u{3000}'
}

pub fn white(c: char) -> (r: bool)
    ensures
        r == is_white(c),
{
    ('\u{9}' <= c && c <= '\u{D}') || c == ' ' || c == '\u{85}' || c == '\u{A0}' || c == '\u{1680}'
        || ('\u{2000}' <= c && c <= '\u{200A}') || c == '\u{2028}' || c == '\u{2029}'
        || c == '\u{202F}' || c == '\u{205F}' || c == '\u{3000}'
}

/// The first position at or after `i` that does not hold whitespace.
pub open spec fn skip_white(s: Seq<char>, i: int) -> int
    decreases s.len() - i,
{
    if 0 <= i < s.len() && is_white(s[i]) {
        skip_white(s, i + 1)
    } else {
        i
    }
}

/// The first position at or after `i` that does not hold a colon.
pub open spec fn skip_colons(s: Seq<char>, i: int) -> int
    decreases s.len() - i,
{
    if 0 <= i < s.len() && s[i] == ':' {
        skip_colons(s, i + 1)
    } else {
        i
    }
}

/// The end of `s[lo .. j]` once its trailing whitespace is taken off.
pub open spec fn trim_end(s: Seq<char>, lo: int, j: int) -> int
    decreases j - lo,
{
    if lo < j && j <= s.len() && is_white(s[j - 1]) {
        trim_end(s, lo, j - 1)
    } else {
        j
    }
}

/// The position of the first colon at or after `i`.
pub open spec fn find_colon(s: Seq<char>, i: int) -> Option<int>
    decreases s.len() - i,
{
    if i < 0 || i >= s.len() {
        None
    } else if s[i] == ':' {
        Some(i)
    } else {
        find_colon(s, i + 1)
    }
}

/// The key and the value of a declaration `s`: split at the first colon,
/// the key without trailing whitespace, the value without the colons that
/// lead it and without surrounding whitespace.
pub open spec fn kv_pair(s: Seq<char>) -> Option<(Seq<char>, Seq<char>)> {
    match find_colon(s, 0) {
        None => None,
        Some(m) => {
            let b = skip_white(s, skip_colons(s, m));
            Some((s.subrange(0, trim_end(s, 0, m)), s.subrange(b, trim_end(s, b, s.len() as int))))
        },
    }
}

/// Splits a declaration `key: value` at its first colon; `None` where it
/// holds no colon.
pub fn get_kv_pair<'a>(base: &'a str) -> (r: Option<(&'a str, &'a str)>)
    ensures
        kv_pair(base@) matches Some((k, v)) ==> r matches Some((rk, rv)) && rk@ == k && rv@ == v,
        kv_pair(base@) is None ==> r is None,
{
    let s = chars_of(base);
    let n = s.len();
    let mut m: usize = 0;
    while m < n && s[m] != ':'
        invariant
            m <= n == s@.len(),
            find_colon(s@, m as int) == find_colon(s@, 0),
        decreases n - m,
    {
        m = m + 1;
    }
    if m >= n {
        return None;
    }
    let mut ke: usize = m;
    while ke > 0 && white(s[ke - 1])
        invariant
            ke <= m < n == s@.len(),
            trim_end(s@, 0, ke as int) == trim_end(s@, 0, m as int),
        decreases ke,
    {
        ke = ke - 1;
    }
    let mut b: usize = m;
    while b < n && s[b] == ':'
        invariant
            m <= b <= n == s@.len(),
            skip_colons(s@, b as int) == skip_colons(s@, m as int),
        decreases n - b,
    {
        b = b + 1;
    }
    let ghost c = b;
    while b < n && white(s[b])
        invariant
            c <= b <= n == s@.len(),
            skip_white(s@, b as int) == skip_white(s@, c as int),
        decreases n - b,
    {
        b = b + 1;
    }
    let mut e: usize = n;
    while e > b && white(s[e - 1])
        invariant
            b <= e <= n == s@.len(),
            trim_end(s@, b as int, e as int) == trim_end(s@, b as int, n as int),
        decreases e,
    {
        e = e - 1;
    }
    Some((base.substring_char(0, ke), base.substring_char(b, e)))
}

/// The end of the word that starts at `i`.
pub open spec fn word_end(s: Seq<char>, i: int) -> int
    decreases s.len() - i,
{
    if 0 <= i < s.len() && !is_white(s[i]) {
        word_end(s, i + 1)
    } else {
        i
    }
}

proof fn lemma_runs(s: Seq<char>, i: int)
    requires
        0 <= i <= s.len(),
    ensures
        i <= skip_white(s, i) <= s.len(),
        i <= word_end(s, i) <= s.len(),
        skip_white(s, i) < s.len() ==> !is_white(s[skip_white(s, i)]),
    decreases s.len() - i,
{
    if i < s.len() {
        lemma_runs(s, i + 1);
    }
}

/// The words of `s` from position `i` on: the maximal runs of characters
/// that are not whitespace.
pub open spec fn words(s: Seq<char>, i: int) -> Seq<Seq<char>>
    decreases s.len() - i,
    via words_decrease
{
    if i < 0 || i > s.len() || skip_white(s, i) >= s.len() {
        Seq::empty()
    } else {
        let b = skip_white(s, i);
        seq![s.subrange(b, word_end(s, b))] + words(s, word_end(s, b))
    }
}

#[via_fn]
proof fn words_decrease(s: Seq<char>, i: int) {
    if 0 <= i <= s.len() {
        lemma_runs(s, i);
        let b = skip_white(s, i);
        if b < s.len() {
            lemma_runs(s, b + 1);
        }
    }
}

/// The words of `value`, split at whitespace, in order.
pub fn get_list(value: &str) -> (r: Vec<String>)
    ensures
        r@.map_values(|w: String| w@) == words(value@, 0),
{
    let s = chars_of(value);
    let n = s.len();
    let mut result: Vec<String> = Vec::new();
    let mut i: usize = 0;
    loop
        invariant
            i <= n == s@.len(),
            s@ == value@,
            result@.map_values(|w: String| w@) + words(s@, i as int) == words(s@, 0),
        ensures
            s@ == value@,
            result@.map_values(|w: String| w@) == words(s@, 0),
        decreases n - i,
    {
        proof {
            lemma_runs(s@, i as int);
        }
        let mut b: usize = i;
        while b < n && white(s[b])
            invariant
                i <= b <= n == s@.len(),
                skip_white(s@, b as int) == skip_white(s@, i as int),
            decreases n - b,
        {
            b = b + 1;
        }
        if b >= n {
            assert(result@.map_values(|w: String| w@) =~= words(s@, 0));
            break;
        }
        let mut e: usize = b + 1;
        while e < n && !white(s[e])
            invariant
                b < e <= n == s@.len(),
                word_end(s@, e as int) == word_end(s@, b as int),
            decreases n - e,
        {
            e = e + 1;
        }
        let w = value.substring_char(b, e).to_owned();
        let ghost before = result@.map_values(|w: String| w@);
        result.push(w);
        assert(result@.map_values(|w: String| w@) =~= before.push(s@.subrange(b as int, e as int)));
        assert(words(s@, i as int) =~= seq![s@.subrange(b as int, e as int)] + words(s@, e as int));
        assert(result@.map_values(|w: String| w@) + words(s@, e as int) =~= words(s@, 0));
        i = e;
    }
    result
}

/// `b` with each double-quote byte written twice.
pub open spec fn double_quotes(b: Seq<u8>) -> Seq<u8>
    decreases b.len(),
{
    if b.len() == 0 {
        Seq::empty()
    } else {
        let last = b[b.len() - 1];
        double_quotes(b.drop_last()) + if last == 0x22 {
            seq![0x22u8, 0x22u8]
        } else {
            seq![last]
        }
    }
}

/// Appends `capture` to `out` as a quoted field: in double quotes, with
/// each double quote inside it doubled.
pub fn write_string(out: &mut Vec<u8>, capture: &str)
    ensures
        final(out)@ == old(out)@ + seq![0x22u8] + double_quotes(capture.spec_bytes()) + seq![0x22u8],
{
    let bytes = capture.as_bytes();
    out.push(0x22u8);
    let ghost start = out@;
    let mut i: usize = 0;
    while i < bytes.len()
        invariant
            i <= bytes@.len(),
            bytes@ == capture.spec_bytes(),
            out@ == start + double_quotes(bytes@.subrange(0, i as int)),
        decreases bytes@.len() - i,
    {
        let c = bytes[i];
        assert(bytes@.subrange(0, i + 1).drop_last() =~= bytes@.subrange(0, i as int));
        if c == 0x22u8 {
            out.push(0x22u8);
            out.push(0x22u8);
        } else {
            out.push(c);
        }
        i = i + 1;
        assert(out@ =~= start + double_quotes(bytes@.subrange(0, i as int)));
    }
    assert(bytes@.subrange(0, i as int) =~= bytes@);
    out.push(0x22u8);
}

#[verifier::external_type_specification]
#[verifier::external_body]
pub struct ExRegex(regex::Regex);

#[verifier::external_type_specification]
#[verifier::external_body]
pub struct ExRegexError(regex::Error);

/// What `str::to_lowercase` makes of a text.
pub uninterp spec fn lower_of(s: Seq<char>) -> Seq<char>;

/// Whether `regex::Regex::new` accepts a pattern.
pub uninterp spec fn regex_accepts(re: Seq<char>) -> bool;

/// Relies on `str::to_lowercase`: the lowercase form of `s`, which depends
/// on its characters alone.
#[verifier::external_body]
fn lowercase(s: &str) -> (r: String)
    ensures
        r@ == lower_of(s@),
{
    s.to_lowercase()
}

/// Relies on `regex::Regex::new`: compiles `re`, or fails where it is no
/// valid pattern (or too large to compile).
#[verifier::external_body]
fn compile(re: &str) -> (r: Result<regex::Regex, regex::Error>)
    ensures
        r is Ok <==> regex_accepts(re@),
{
    regex::Regex::new(re)
}

/// A declaration of the tool's configuration file.
pub enum Declaration {
    /// `regex: <pattern>`, compiled.
    Regex(regex::Regex),
    /// `order: <names>`, the capture names in output order.
    Order(Vec<String>),
}

/// Why a configuration line was refused.
#[derive(Debug, Clone, Copy, PartialEq, Eq, Structural)]
pub enum DeclError {
    /// The line holds no `key: value` pair.
    NoPair,
    /// The key is neither `regex` nor `order`.
    UnknownKey,
    /// The pattern of a `regex` declaration does not compile.
    InvalidRegex,
}

pub open spec fn regex_key() -> Seq<char> {
    seq!['r', 'e', 'g', 'e', 'x']
}

pub open spec fn order_key() -> Seq<char> {
    seq!['o', 'r', 'd', 'e', 'r']
}

/// `r` is the outcome of the declaration with the (lowercased) key `key` and
/// the value `value`.
pub open spec fn declares(r: Result<Declaration, DeclError>, key: Seq<char>, value: Seq<char>) -> bool {
    if key == regex_key() {
        if regex_accepts(value) {
            r matches Ok(Declaration::Regex(_))
        } else {
            r == Err::<Declaration, DeclError>(DeclError::InvalidRegex)
        }
    } else if key == order_key() {
        r matches Ok(Declaration::Order(w)) && w@.map_values(|x: String| x@) == words(value, 0)
    } else {
        r == Err::<Declaration, DeclError>(DeclError::UnknownKey)
    }
}

fn same_chars(a: &Vec<char>, b: &Vec<char>) -> (r: bool)
    ensures
        r == (a@ == b@),
{
    if a.len() != b.len() {
        return false;
    }
    let mut i: usize = 0;
    while i < a.len()
        invariant
            i <= a@.len() == b@.len(),
            a@.subrange(0, i as int) == b@.subrange(0, i as int),
        decreases a@.len() - i,
    {
        if a[i] != b[i] {
            assert(a@.subrange(0, i + 1)[i as int] != b@.subrange(0, i + 1)[i as int]);
            return false;
        }
        assert(a@.subrange(0, i + 1) =~= a@.subrange(0, i as int).push(a[i as int]));
        assert(b@.subrange(0, i + 1) =~= b@.subrange(0, i as int).push(b[i as int]));
        i = i + 1;
    }
    assert(a@.subrange(0, i as int) =~= a@);
    assert(b@.subrange(0, i as int) =~= b@);
    true
}

/// The declaration with the already lowercased key `key` and the value
/// `value`.
pub fn declaration_from(key: &str, value: &str) -> (r: Result<Declaration, DeclError>)
    ensures
        declares(r, key@, value@),
{
    let k = chars_of(key);
    if same_chars(&k, &vec!['r', 'e', 'g', 'e', 'x']) {
        assert(k@ == regex_key());
        match compile(value) {
            Ok(re) => Ok(Declaration::Regex(re)),
            Err(_) => Err(DeclError::InvalidRegex),
        }
    } else if same_chars(&k, &vec!['o', 'r', 'd', 'e', 'r']) {
        assert(k@ == order_key());
        Ok(Declaration::Order(get_list(value)))
    } else {
        assert(k@ != regex_key() && k@ != order_key());
        Err(DeclError::UnknownKey)
    }
}

/// One line of the configuration file: `None` for a blank line or a
/// comment (a `#` after leading whitespace), else its declaration.
pub fn parse_declaration(line: &str) -> (r: Option<Result<Declaration, DeclError>>)
    ensures
        ({
            let t = line@.subrange(skip_white(line@, 0), line@.len() as int);
            if t.len() == 0 || t[0] == '#' {
                r is None
            } else {
                match kv_pair(t) {
                    None => r == Some(Err::<Declaration, DeclError>(DeclError::NoPair)),
                    Some((k, v)) => r matches Some(d) && declares(d, lower_of(k), v),
                }
            }
        }),
{
    let s = chars_of(line);
    let n = s.len();
    let mut b: usize = 0;
    while b < n && white(s[b])
        invariant
            b <= n == s@.len(),
            skip_white(s@, b as int) == skip_white(s@, 0),
        decreases n - b,
    {
        b = b + 1;
    }
    if b >= n || s[b] == '#' {
        return None;
    }
    let rest = line.substring_char(b, n);
    match get_kv_pair(rest) {
        None => Some(Err(DeclError::NoPair)),
        Some((key, value)) => {
            let lowered = lowercase(key);
            Some(declaration_from(lowered.as_str(), value))
        },
    }
}

/// `p` occurs in `s`.
pub open spec fn contains(s: Seq<char>, p: Seq<char>) -> bool {
    exists|i: int| 0 <= i <= s.len() - p.len() && #[trigger] s.subrange(i, i + p.len()) == p
}

/// A field of a record as written: quoted where it holds the separator.
pub open spec fn field_bytes(f: Seq<char>, sep: Seq<char>) -> Seq<u8> {
    if contains(f, sep) {
        seq![0x22u8] + double_quotes(encode_utf8(f)) + seq![0x22u8]
    } else {
        encode_utf8(f)
    }
}

/// The parts of a header record: each name as it is.
pub open spec fn header_parts(names: Seq<String>) -> Seq<Seq<u8>> {
    names.map_values(|f: String| encode_utf8(f@))
}

/// The parts of a data record: each field as `field_bytes` writes it.
pub open spec fn row_parts(fields: Seq<String>, sep: Seq<char>) -> Seq<Seq<u8>> {
    fields.map_values(|f: String| field_bytes(f@, sep))
}

/// `parts` written one after the other, with `sep` between each two.
pub open spec fn joined(parts: Seq<Seq<u8>>, sep: Seq<u8>) -> Seq<u8>
    decreases parts.len(),
{
    if parts.len() == 0 {
        Seq::empty()
    } else if parts.len() == 1 {
        parts[0]
    } else {
        joined(parts.drop_last(), sep) + sep + parts.last()
    }
}

fn matches_at(s: &Vec<char>, p: &Vec<char>, i: usize) -> (r: bool)
    requires
        i + p@.len() <= s@.len(),
    ensures
        r == (s@.subrange(i as int, i + p@.len()) == p@),
{
    let n = s.len();
    let mut j: usize = 0;
    while j < p.len()
        invariant
            j <= p@.len(),
            n == s@.len(),
            i + p@.len() <= s@.len(),
            forall|k: int| 0 <= k < j ==> s@[i + k] == p@[k],
        decreases p@.len() - j,
    {
        if s[i + j] != p[j] {
            assert(s@.subrange(i as int, i + p@.len())[j as int] != p@[j as int]);
            return false;
        }
        j = j + 1;
    }
    assert(s@.subrange(i as int, i + p@.len()) =~= p@);
    true
}

fn contains_text(s: &Vec<char>, p: &Vec<char>) -> (r: bool)
    ensures
        r == contains(s@, p@),
{
    if p.len() > s.len() {
        return false;
    }
    if p.len() == 0 {
        assert(s@.subrange(0int, 0int + p@.len()) =~= p@);
        return true;
    }
    let n = s.len();
    let last = n - p.len();
    let mut i: usize = 0;
    while i <= last
        invariant
            0 < p@.len() <= s@.len(),
            n == s@.len(),
            last == s@.len() - p@.len(),
            i <= last + 1,
            forall|j: int| 0 <= j < i ==> #[trigger] s@.subrange(j, j + p@.len()) != p@,
        decreases last + 1 - i,
    {
        if matches_at(s, p, i) {
            return true;
        }
        i = i + 1;
    }
    false
}

/// Appends the UTF-8 bytes of `s` to `out`.
fn push_text(out: &mut Vec<u8>, s: &str)
    ensures
        final(out)@ == old(out)@ + encode_utf8(s@),
{
    let b = s.as_bytes();
    let mut i: usize = 0;
    while i < b.len()
        invariant
            i <= b@.len(),
            b@ == s.spec_bytes(),
            out@ == old(out)@ + b@.subrange(0, i as int),
        decreases b@.len() - i,
    {
        out.push(b[i]);
        i = i + 1;
        assert(out@ =~= old(out)@ + b@.subrange(0, i as int));
    }
    assert(b@.subrange(0, i as int) =~= b@);
}

/// Appends one field of a record, quoted where it holds `sep`.
pub fn write_field(out: &mut Vec<u8>, field: &str, sep: &str)
    ensures
        final(out)@ == old(out)@ + field_bytes(field@, sep@),
{
    if contains_text(&chars_of(field), &chars_of(sep)) {
        write_string(out, field);
        assert(final(out)@ =~= old(out)@ + field_bytes(field@, sep@));
    } else {
        push_text(out, field);
    }
}

/// Appends a record: `fields` separated by `sep` (each quoted where it
/// holds `sep`, unless `raw`), then a line feed.
fn write_record(out: &mut Vec<u8>, fields: &Vec<String>, sep: &str, raw: bool)
    ensures
        final(out)@ == old(out)@ + joined(
            if raw { header_parts(fields@) } else { row_parts(fields@, sep@) },
            encode_utf8(sep@),
        ) + seq![0x0Au8],
{
    let ghost parts = if raw { header_parts(fields@) } else { row_parts(fields@, sep@) };
    let mut i: usize = 0;
    while i < fields.len()
        invariant
            i <= fields@.len(),
            parts == if raw { header_parts(fields@) } else { row_parts(fields@, sep@) },
            out@ == old(out)@ + joined(parts.subrange(0, i as int), encode_utf8(sep@)),
        decreases fields@.len() - i,
    {
        let ghost before = out@;
        if i != 0 {
            push_text(out, sep);
        }
        if raw {
            push_text(out, fields[i].as_str());
        } else {
            write_field(out, fields[i].as_str(), sep);
        }
        assert(parts.subrange(0, i + 1).drop_last() =~= parts.subrange(0, i as int));
        i = i + 1;
        assert(out@ =~= old(out)@ + joined(parts.subrange(0, i as int), encode_utf8(sep@)));
    }
    assert(parts.subrange(0, i as int) =~= parts);
    out.push(0x0Au8);
}

/// Appends the header record: the capture names, separated by `sep`.
pub fn write_header(out: &mut Vec<u8>, names: &Vec<String>, sep: &str)
    ensures
        final(out)@ == old(out)@ + joined(header_parts(names@), encode_utf8(sep@)) + seq![0x0Au8],
{
    write_record(out, names, sep, true);
}

/// Appends the record of one matching line: the captured `fields`,
/// separated by `sep`, each quoted where it holds `sep`.
pub fn write_row(out: &mut Vec<u8>, fields: &Vec<String>, sep: &str)
    ensures
        final(out)@ == old(out)@ + joined(row_parts(fields@, sep@), encode_utf8(sep@)) + seq![0x0Au8],
{
    write_record(out, fields, sep, false);
}

} // verus!
