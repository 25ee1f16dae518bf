//! The character classes and patterns that the console parsers look for.
//!
//! Each pattern is matched the way a leftmost-first regular expression engine
//! matches it: the spec function for a pattern says, for one starting
//! position, which text the engine takes and which groups it captures,
//! backtracking included; [`first_hit`] and [`all_hits`] then say which
//! starting positions a search or an iteration settles on.

use vstd::prelude::*;

use crate::text::{ascii_lower, is_space, lower, space};

verus! {

/// Unicode `Decimal_Number`, the `\d` class.
pub open spec fn is_decimal(c: char) -> bool {
    let n = c as u32;
    (0x30 <= n && n <= 0x39) || (0x660 <= n && n <= 0x669) || (0x6f0 <= n && n <= 0x6f9)
    || (0x7c0 <= n && n <= 0x7c9) || (0x966 <= n && n <= 0x96f) || (0x9e6 <= n && n <= 0x9ef)
    || (0xa66 <= n && n <= 0xa6f) || (0xae6 <= n && n <= 0xaef) || (0xb66 <= n && n <= 0xb6f)
    || (0xbe6 <= n && n <= 0xbef) || (0xc66 <= n && n <= 0xc6f) || (0xce6 <= n && n <= 0xcef)
    || (0xd66 <= n && n <= 0xd6f) || (0xde6 <= n && n <= 0xdef) || (0xe50 <= n && n <= 0xe59)
    || (0xed0 <= n && n <= 0xed9) || (0xf20 <= n && n <= 0xf29) || (0x1040 <= n && n <= 0x1049)
    || (0x1090 <= n && n <= 0x1099) || (0x17e0 <= n && n <= 0x17e9) || (0x1810 <= n && n <= 0x1819)
    || (0x1946 <= n && n <= 0x194f) || (0x19d0 <= n && n <= 0x19d9) || (0x1a80 <= n && n <= 0x1a89)
    || (0x1a90 <= n && n <= 0x1a99) || (0x1b50 <= n && n <= 0x1b59) || (0x1bb0 <= n && n <= 0x1bb9)
    || (0x1c40 <= n && n <= 0x1c49) || (0x1c50 <= n && n <= 0x1c59) || (0xa620 <= n && n <= 0xa629)
    || (0xa8d0 <= n && n <= 0xa8d9) || (0xa900 <= n && n <= 0xa909) || (0xa9d0 <= n && n <= 0xa9d9)
    || (0xa9f0 <= n && n <= 0xa9f9) || (0xaa50 <= n && n <= 0xaa59) || (0xabf0 <= n && n <= 0xabf9)
    || (0xff10 <= n && n <= 0xff19) || (0x104a0 <= n && n <= 0x104a9) || (0x10d30 <= n && n <= 0x10d39)
    || (0x10d40 <= n && n <= 0x10d49) || (0x11066 <= n && n <= 0x1106f) || (0x110f0 <= n && n <= 0x110f9)
    || (0x11136 <= n && n <= 0x1113f) || (0x111d0 <= n && n <= 0x111d9) || (0x112f0 <= n && n <= 0x112f9)
    || (0x11450 <= n && n <= 0x11459) || (0x114d0 <= n && n <= 0x114d9) || (0x11650 <= n && n <= 0x11659)
    || (0x116c0 <= n && n <= 0x116c9) || (0x116d0 <= n && n <= 0x116e3) || (0x11730 <= n && n <= 0x11739)
    || (0x118e0 <= n && n <= 0x118e9) || (0x11950 <= n && n <= 0x11959) || (0x11bf0 <= n && n <= 0x11bf9)
    || (0x11c50 <= n && n <= 0x11c59) || (0x11d50 <= n && n <= 0x11d59) || (0x11da0 <= n && n <= 0x11da9)
    || (0x11f50 <= n && n <= 0x11f59) || (0x16130 <= n && n <= 0x16139) || (0x16a60 <= n && n <= 0x16a69)
    || (0x16ac0 <= n && n <= 0x16ac9) || (0x16b50 <= n && n <= 0x16b59) || (0x16d70 <= n && n <= 0x16d79)
    || (0x1ccf0 <= n && n <= 0x1ccf9) || (0x1d7ce <= n && n <= 0x1d7ff) || (0x1e140 <= n && n <= 0x1e149)
    || (0x1e2f0 <= n && n <= 0x1e2f9) || (0x1e4f0 <= n && n <= 0x1e4f9) || (0x1e5f1 <= n && n <= 0x1e5fa)
    || (0x1e950 <= n && n <= 0x1e959) || (0x1fbf0 <= n && n <= 0x1fbf9)
}

pub fn decimal_digit(c: char) -> (r: bool)
    ensures
        r == is_decimal(c),
{
    let n = c as u32;
    (0x30 <= n && n <= 0x39) || (0x660 <= n && n <= 0x669) || (0x6f0 <= n && n <= 0x6f9)
    || (0x7c0 <= n && n <= 0x7c9) || (0x966 <= n && n <= 0x96f) || (0x9e6 <= n && n <= 0x9ef)
    || (0xa66 <= n && n <= 0xa6f) || (0xae6 <= n && n <= 0xaef) || (0xb66 <= n && n <= 0xb6f)
    || (0xbe6 <= n && n <= 0xbef) || (0xc66 <= n && n <= 0xc6f) || (0xce6 <= n && n <= 0xcef)
    || (0xd66 <= n && n <= 0xd6f) || (0xde6 <= n && n <= 0xdef) || (0xe50 <= n && n <= 0xe59)
    || (0xed0 <= n && n <= 0xed9) || (0xf20 <= n && n <= 0xf29) || (0x1040 <= n && n <= 0x1049)
    || (0x1090 <= n && n <= 0x1099) || (0x17e0 <= n && n <= 0x17e9) || (0x1810 <= n && n <= 0x1819)
    || (0x1946 <= n && n <= 0x194f) || (0x19d0 <= n && n <= 0x19d9) || (0x1a80 <= n && n <= 0x1a89)
    || (0x1a90 <= n && n <= 0x1a99) || (0x1b50 <= n && n <= 0x1b59) || (0x1bb0 <= n && n <= 0x1bb9)
    || (0x1c40 <= n && n <= 0x1c49) || (0x1c50 <= n && n <= 0x1c59) || (0xa620 <= n && n <= 0xa629)
    || (0xa8d0 <= n && n <= 0xa8d9) || (0xa900 <= n && n <= 0xa909) || (0xa9d0 <= n && n <= 0xa9d9)
    || (0xa9f0 <= n && n <= 0xa9f9) || (0xaa50 <= n && n <= 0xaa59) || (0xabf0 <= n && n <= 0xabf9)
    || (0xff10 <= n && n <= 0xff19) || (0x104a0 <= n && n <= 0x104a9) || (0x10d30 <= n && n <= 0x10d39)
    || (0x10d40 <= n && n <= 0x10d49) || (0x11066 <= n && n <= 0x1106f) || (0x110f0 <= n && n <= 0x110f9)
    || (0x11136 <= n && n <= 0x1113f) || (0x111d0 <= n && n <= 0x111d9) || (0x112f0 <= n && n <= 0x112f9)
    || (0x11450 <= n && n <= 0x11459) || (0x114d0 <= n && n <= 0x114d9) || (0x11650 <= n && n <= 0x11659)
    || (0x116c0 <= n && n <= 0x116c9) || (0x116d0 <= n && n <= 0x116e3) || (0x11730 <= n && n <= 0x11739)
    || (0x118e0 <= n && n <= 0x118e9) || (0x11950 <= n && n <= 0x11959) || (0x11bf0 <= n && n <= 0x11bf9)
    || (0x11c50 <= n && n <= 0x11c59) || (0x11d50 <= n && n <= 0x11d59) || (0x11da0 <= n && n <= 0x11da9)
    || (0x11f50 <= n && n <= 0x11f59) || (0x16130 <= n && n <= 0x16139) || (0x16a60 <= n && n <= 0x16a69)
    || (0x16ac0 <= n && n <= 0x16ac9) || (0x16b50 <= n && n <= 0x16b59) || (0x16d70 <= n && n <= 0x16d79)
    || (0x1ccf0 <= n && n <= 0x1ccf9) || (0x1d7ce <= n && n <= 0x1d7ff) || (0x1e140 <= n && n <= 0x1e149)
    || (0x1e2f0 <= n && n <= 0x1e2f9) || (0x1e4f0 <= n && n <= 0x1e4f9) || (0x1e5f1 <= n && n <= 0x1e5fa)
    || (0x1e950 <= n && n <= 0x1e959) || (0x1fbf0 <= n && n <= 0x1fbf9)
}

/// Whether `c` is a Unicode word character, the `\w` class whose edges `\b`
/// marks.
pub uninterp spec fn word_character(c: char) -> bool;

/// `regex_syntax::is_word_character`, the Unicode word-character test that the
/// regex engine applies at `\b`; its tables are not restated here.
#[verifier::external_body]
fn is_word(c: char) -> (r: bool)
    ensures
        r == word_character(c),
{
    regex_syntax::is_word_character(c)
}

pub open spec fn is_ascii_digit(c: char) -> bool {
    '0' <= c && c <= '9'
}

pub open spec fn is_ascii_letter(c: char) -> bool {
    ('a' <= c && c <= 'z') || ('A' <= c && c <= 'Z')
}

/// An ASCII letter, or one of the two characters that case folding joins to
/// ASCII letters: the Kelvin sign (with `k`) and the long s (with `s`).
pub open spec fn is_letter_folded(c: char) -> bool {
    is_ascii_letter(c) || c == '\u{212a}' || c == '\u{17f}'
}

/// Whether `c` matches the lowercase ASCII letter `letter` when case is
/// ignored.
pub open spec fn folds_to(c: char, letter: char) -> bool {
    ascii_lower(c) == letter || (letter == 'k' && c == '\u{212a}') || (letter == 's' && c == '\u{17f}')
}

fn fold_matches(c: char, letter: char) -> (r: bool)
    ensures
        r == folds_to(c, letter),
{
    lower(c) == letter || (letter == 'k' && c == '\u{212a}') || (letter == 's' && c == '\u{17f}')
}

/// The character classes the patterns are built from.
#[derive(Clone, Copy, PartialEq, Eq, Structural)]
pub enum CharClass {
    /// `\s`
    Space,
    /// `\d`
    Decimal,
    /// `[0-9;]`, the parameters of an ANSI escape.
    AnsiParameter,
    /// `[\s#:]`
    SpaceHashColon,
    /// `[\s:]`
    SpaceColon,
    /// `[A-Za-z0-9_.-]` with case ignored.
    WorldName,
    /// `[^",\s\]\)]`
    KeyedWorld,
    /// `[A-Za-z]` with case ignored.
    Letter,
    /// `[A-Za-z0-9_-]` with case ignored.
    NameTail,
}

pub open spec fn in_class(c: char, class: CharClass) -> bool {
    match class {
        CharClass::Space => is_space(c),
        CharClass::Decimal => is_decimal(c),
        CharClass::AnsiParameter => is_ascii_digit(c) || c == ';',
        CharClass::SpaceHashColon => is_space(c) || c == '#' || c == ':',
        CharClass::SpaceColon => is_space(c) || c == ':',
        CharClass::WorldName => is_letter_folded(c) || is_ascii_digit(c) || c == '_' || c == '.' || c == '-',
        CharClass::KeyedWorld => !(c == '"' || c == ',' || is_space(c) || c == ']' || c == ')'),
        CharClass::Letter => is_letter_folded(c),
        CharClass::NameTail => is_letter_folded(c) || is_ascii_digit(c) || c == '_' || c == '-',
    }
}

pub fn class_has(c: char, class: CharClass) -> (r: bool)
    ensures
        r == in_class(c, class),
{
    let letter = ('a' <= c && c <= 'z') || ('A' <= c && c <= 'Z') || c == '\u{212a}' || c == '\u{17f}';
    let digit = '0' <= c && c <= '9';
    match class {
        CharClass::Space => space(c),
        CharClass::Decimal => decimal_digit(c),
        CharClass::AnsiParameter => digit || c == ';',
        CharClass::SpaceHashColon => space(c) || c == '#' || c == ':',
        CharClass::SpaceColon => space(c) || c == ':',
        CharClass::WorldName => letter || digit || c == '_' || c == '.' || c == '-',
        CharClass::KeyedWorld => !(c == '"' || c == ',' || space(c) || c == ']' || c == ')'),
        CharClass::Letter => letter,
        CharClass::NameTail => letter || digit || c == '_' || c == '-',
    }
}

/// Where a run of `class` characters that starts at `i` ends.
pub open spec fn run_end(s: Seq<char>, i: int, class: CharClass) -> int
    decreases s.len() - i,
{
    if 0 <= i < s.len() && in_class(s[i], class) {
        run_end(s, i + 1, class)
    } else {
        i
    }
}

pub proof fn lemma_run_end(s: Seq<char>, i: int, class: CharClass)
    requires
        0 <= i <= s.len(),
    ensures
        i <= run_end(s, i, class) <= s.len(),
        forall|k: int| i <= k < run_end(s, i, class) ==> in_class(#[trigger] s[k], class),
        run_end(s, i, class) == s.len() || !in_class(s[run_end(s, i, class)], class),
    decreases s.len() - i,
{
    if i < s.len() && in_class(s[i], class) {
        lemma_run_end(s, i + 1, class);
    }
}

/// Skip the run of `class` characters that starts at `i`.
pub fn skip(s: &Vec<char>, i: usize, class: CharClass) -> (r: usize)
    requires
        i <= s.len(),
    ensures
        r as int == run_end(s@, i as int, class),
        i <= r <= s@.len(),
{
    proof {
        lemma_run_end(s@, i as int, class);
    }
    let mut k = i;
    while k < s.len() && class_has(s[k], class)
        invariant
            i <= k <= s@.len(),
            run_end(s@, i as int, class) == run_end(s@, k as int, class),
        decreases s@.len() - k,
    {
        k += 1;
    }
    k
}

/// Whether `s[i]` exists and is `c`.
pub open spec fn is_char(s: Seq<char>, i: int, c: char) -> bool {
    0 <= i < s.len() && s[i] == c
}

pub fn char_is(s: &Vec<char>, i: usize, c: char) -> (r: bool)
    ensures
        r == is_char(s@, i as int, c),
{
    i < s.len() && s[i] == c
}

/// Whether `s[i]` exists and is in `class`.
pub open spec fn class_at(s: Seq<char>, i: int, class: CharClass) -> bool {
    0 <= i < s.len() && in_class(s[i], class)
}

pub fn class_here(s: &Vec<char>, i: usize, class: CharClass) -> (r: bool)
    ensures
        r == class_at(s@, i as int, class),
{
    i < s.len() && class_has(s[i], class)
}

/// Whether the lowercase ASCII `word` is found at `i` when case is ignored.
pub open spec fn ci_at(s: Seq<char>, i: int, word: Seq<char>) -> bool {
    &&& 0 <= i
    &&& i + word.len() <= s.len()
    &&& forall|k: int| 0 <= k < word.len() ==> folds_to(#[trigger] s[i + k], word[k])
}

pub fn ci_here(s: &Vec<char>, i: usize, word: &str) -> (r: bool)
    ensures
        r == ci_at(s@, i as int, word@),
{
    let w = crate::text::chars_of(word);
    if i > s.len() || w.len() > s.len() - i {
        return false;
    }
    let mut k: usize = 0;
    while k < w.len()
        invariant
            w@ == word@,
            i <= s@.len(),
            s@.len() == s.len(),
            i + w@.len() <= s@.len(),
            k <= w@.len(),
            forall|j: int| 0 <= j < k ==> folds_to(#[trigger] s@[i + j], w@[j]),
        decreases w@.len() - k,
    {
        if !fold_matches(s[i + k], w[k]) {
            return false;
        }
        k += 1;
    }
    true
}

/// Whether a word character ends just before `i`.
pub open spec fn word_before(s: Seq<char>, i: int) -> bool {
    0 < i <= s.len() && word_character(s[i - 1])
}

/// Whether a word character starts at `i`.
pub open spec fn word_after(s: Seq<char>, i: int) -> bool {
    0 <= i < s.len() && word_character(s[i])
}

/// `\b` at `i`: a word character on exactly one side.
pub open spec fn boundary(s: Seq<char>, i: int) -> bool {
    word_before(s, i) != word_after(s, i)
}

pub fn boundary_here(s: &Vec<char>, i: usize) -> (r: bool)
    ensures
        r == boundary(s@, i as int),
{
    let before = i > 0 && i <= s.len() && is_word(s[i - 1]);
    let after = i < s.len() && is_word(s[i]);
    before != after
}

/// The first position from `i` on that holds `c`, or the length.
pub open spec fn find_char(s: Seq<char>, i: int, c: char) -> int
    decreases s.len() - i,
{
    if 0 <= i < s.len() && s[i] != c {
        find_char(s, i + 1, c)
    } else {
        i
    }
}

pub proof fn lemma_find_char(s: Seq<char>, i: int, c: char)
    requires
        0 <= i <= s.len(),
    ensures
        i <= find_char(s, i, c) <= s.len(),
        forall|k: int| i <= k < find_char(s, i, c) ==> #[trigger] s[k] != c,
        find_char(s, i, c) == s.len() || s[find_char(s, i, c)] == c,
    decreases s.len() - i,
{
    if i < s.len() && s[i] != c {
        lemma_find_char(s, i + 1, c);
    }
}

pub fn seek_char(s: &Vec<char>, i: usize, c: char) -> (r: usize)
    requires
        i <= s.len(),
    ensures
        r as int == find_char(s@, i as int, c),
        i <= r <= s@.len(),
{
    proof {
        lemma_find_char(s@, i as int, c);
    }
    let mut k = i;
    while k < s.len() && s[k] != c
        invariant
            i <= k <= s@.len(),
            find_char(s@, i as int, c) == find_char(s@, k as int, c),
        decreases s@.len() - k,
    {
        k += 1;
    }
    k
}

/// End of `\d+` at `i`.
pub open spec fn digits_end(s: Seq<char>, i: int) -> Option<int> {
    if class_at(s, i, CharClass::Decimal) {
        Some(run_end(s, i, CharClass::Decimal))
    } else {
        None
    }
}

/// End of `-?\d+` at `i`.
pub open spec fn integer_end(s: Seq<char>, i: int) -> Option<int> {
    if is_char(s, i, '-') {
        digits_end(s, i + 1)
    } else {
        digits_end(s, i)
    }
}

/// End of `\d+(?:\.\d+)?` at `i`.
pub open spec fn unsigned_end(s: Seq<char>, i: int) -> Option<int> {
    match digits_end(s, i) {
        Some(e) => if is_char(s, e, '.') && class_at(s, e + 1, CharClass::Decimal) {
            Some(run_end(s, e + 1, CharClass::Decimal))
        } else {
            Some(e)
        },
        None => None,
    }
}

/// End of `-?\d+(?:\.\d+)?` at `i`.
pub open spec fn signed_end(s: Seq<char>, i: int) -> Option<int> {
    if is_char(s, i, '-') {
        unsigned_end(s, i + 1)
    } else {
        unsigned_end(s, i)
    }
}

pub fn digits_here(s: &Vec<char>, i: usize) -> (r: Option<usize>)
    requires
        i <= s.len(),
    ensures
        r matches Some(e) ==> i < e <= s@.len(),
        match r {
            Some(e) => digits_end(s@, i as int) == Some(e as int),
            None => digits_end(s@, i as int) is None,
        },
{
    if class_here(s, i, CharClass::Decimal) {
        proof {
            lemma_run_end(s@, i + 1, CharClass::Decimal);
        }
        Some(skip(s, i, CharClass::Decimal))
    } else {
        None
    }
}

pub fn integer_here(s: &Vec<char>, i: usize) -> (r: Option<usize>)
    requires
        i <= s.len(),
    ensures
        r matches Some(e) ==> i < e <= s@.len(),
        match r {
            Some(e) => integer_end(s@, i as int) == Some(e as int),
            None => integer_end(s@, i as int) is None,
        },
{
    if char_is(s, i, '-') {
        digits_here(s, i + 1)
    } else {
        digits_here(s, i)
    }
}

pub fn unsigned_here(s: &Vec<char>, i: usize) -> (r: Option<usize>)
    requires
        i <= s.len(),
    ensures
        r matches Some(e) ==> i < e <= s@.len(),
        match r {
            Some(e) => unsigned_end(s@, i as int) == Some(e as int),
            None => unsigned_end(s@, i as int) is None,
        },
{
    match digits_here(s, i) {
        Some(e) => if char_is(s, e, '.') && class_here(s, e + 1, CharClass::Decimal) {
            Some(skip(s, e + 1, CharClass::Decimal))
        } else {
            Some(e)
        },
        None => None,
    }
}

pub fn signed_here(s: &Vec<char>, i: usize) -> (r: Option<usize>)
    requires
        i <= s.len(),
    ensures
        r matches Some(e) ==> i < e <= s@.len(),
        match r {
            Some(e) => signed_end(s@, i as int) == Some(e as int),
            None => signed_end(s@, i as int) is None,
        },
{
    if char_is(s, i, '-') {
        unsigned_here(s, i + 1)
    } else {
        unsigned_here(s, i)
    }
}

/// A match: where it ends, and the spans of up to three groups.
pub type Hit = (int, Option<(int, int)>, Option<(int, int)>, Option<(int, int)>);

/// A match found in a sequence of characters: where it ends, and the spans of
/// up to three groups.
#[derive(Clone, Copy)]
pub struct Found {
    pub end: usize,
    pub one: Option<(usize, usize)>,
    pub two: Option<(usize, usize)>,
    pub three: Option<(usize, usize)>,
}

pub open spec fn span_view(span: Option<(usize, usize)>) -> Option<(int, int)> {
    match span {
        Some((a, b)) => Some((a as int, b as int)),
        None => None,
    }
}

impl View for Found {
    type V = Hit;

    open spec fn view(&self) -> Hit {
        (self.end as int, span_view(self.one), span_view(self.two), span_view(self.three))
    }
}

pub open spec fn found_view(found: Option<Found>) -> Option<Hit> {
    match found {
        Some(f) => Some(f@),
        None => None,
    }
}

/// Whether a group span lies within `[from, to]`.
pub open spec fn span_within(span: Option<(int, int)>, from: int, to: int) -> bool {
    span matches Some((a, b)) ==> from <= a <= b <= to
}

/// Whether a match that starts at `i` ends past `i` and by `len`, with its
/// groups inside it.
pub open spec fn within(hit: Hit, i: int, len: int) -> bool {
    &&& i < hit.0 <= len
    &&& span_within(hit.1, i, hit.0)
    &&& span_within(hit.2, i, hit.0)
    &&& span_within(hit.3, i, hit.0)
}

/// The figures a region report names.
#[derive(Clone, Copy, PartialEq, Eq, Structural)]
pub enum Metric {
    Tps,
    Mspt,
    Util,
    Players,
    Entities,
    Chunks,
}

/// The patterns searched for in console output.
#[derive(Clone, Copy, PartialEq, Eq, Structural)]
pub enum Pattern {
    /// `\x1b\[[0-9;]*[A-Za-z]`
    Ansi,
    /// `-?\d+(?:\.\d+)?`
    Number,
    /// `(?i)from\s+last\s+([^:]+):`
    FromLast,
    /// `(\d+(?:\.\d+)?)\s*/\s*(\d+(?:\.\d+)?)\s*/\s*(\d+(?:\.\d+)?)`
    Triple,
    /// `(?i)\b(?:total\s+)?regions?\b\s*[:=]\s*(\d+)`
    Total,
    /// `(?i)\b(?:region\s+|total\s+)?threads?\b\s*[:=]\s*(\d+)`
    Threads,
    /// `\(\s*(-?\d+)\s*,\s*(-?\d+)\s*\)`
    Coords,
    /// `(?i)\bworld\s*[:=]\s*"?([^",\s\]\)]+)`
    WorldKeyed,
    /// The metric's label as a whole word, then `\s*[:=]?\s*(-?\d+(?:\.\d+)?)`,
    /// case ignored.
    Field(Metric),
    /// `(?i)there\s+are\s+(\d+)(?:\s*(?:/|\s+of\s+a\s+max\s+of\s+)\s*(\d+))?`
    Counts,
    /// `(?i)running\s+([A-Za-z][A-Za-z0-9_-]*)\s+version`
    Running,
    /// `(?i)\(\s*MC\s*:\s*([^)]+?)\s*\)`
    Mc,
    /// `\b(1\.\d+(?:\.\d+)?)\b`
    BareVersion,
}

pub open spec fn sp(s: Seq<char>, i: int) -> int {
    run_end(s, i, CharClass::Space)
}

/// Whether `s[i]` exists and matches the lowercase ASCII `letter`, case ignored.
pub open spec fn ci_letter_at(s: Seq<char>, i: int, letter: char) -> bool {
    0 <= i < s.len() && folds_to(s[i], letter)
}

/// Past an optional plural `s` at `e`.
pub open spec fn plural_end(s: Seq<char>, e: int) -> int {
    if ci_letter_at(s, e, 's') {
        e + 1
    } else {
        e
    }
}

pub open spec fn ansi_at(s: Seq<char>, i: int) -> Option<Hit> {
    if is_char(s, i, '\u{1b}') && is_char(s, i + 1, '[') {
        let e = run_end(s, i + 2, CharClass::AnsiParameter);
        if 0 <= e < s.len() && is_ascii_letter(s[e]) {
            Some((e + 1, None, None, None))
        } else {
            None
        }
    } else {
        None
    }
}

pub open spec fn number_at(s: Seq<char>, i: int) -> Option<Hit> {
    match signed_end(s, i) {
        Some(e) => Some((e, None, None, None)),
        None => None,
    }
}

/// After `from`, whitespace, `last`, and at least one more whitespace
/// character, the text up to the next colon; when that text is all
/// whitespace, its last character, which the engine gives back to the group.
pub open spec fn from_last_at(s: Seq<char>, i: int) -> Option<Hit> {
    if ci_at(s, i, "from"@) && class_at(s, i + 4, CharClass::Space) {
        let b = sp(s, i + 4);
        if ci_at(s, b, "last"@) && class_at(s, b + 4, CharClass::Space) {
            let j = b + 4;
            let c = find_char(s, j, ':');
            if c < s.len() && c - j >= 2 {
                let p = sp(s, j);
                let start = if p < c {
                    p
                } else {
                    c - 1
                };
                Some((c + 1, Some((start, c)), None, None))
            } else {
                None
            }
        } else {
            None
        }
    } else {
        None
    }
}

pub open spec fn triple_at(s: Seq<char>, i: int) -> Option<Hit> {
    match unsigned_end(s, i) {
        Some(e1) => {
            let p = sp(s, e1);
            if is_char(s, p, '/') {
                let q = sp(s, p + 1);
                match unsigned_end(s, q) {
                    Some(e2) => {
                        let r = sp(s, e2);
                        if is_char(s, r, '/') {
                            let t = sp(s, r + 1);
                            match unsigned_end(s, t) {
                                Some(e3) => Some((e3, Some((i, e1)), Some((q, e2)), Some((t, e3)))),
                                None => None,
                            }
                        } else {
                            None
                        }
                    },
                    None => None,
                }
            } else {
                None
            }
        },
        None => None,
    }
}

/// `\b\s*[:=]\s*(\d+)` after a keyword that ends at `e`.
pub open spec fn keyed_count(s: Seq<char>, e: int) -> Option<Hit> {
    if boundary(s, e) {
        let p = sp(s, e);
        if is_char(s, p, ':') || is_char(s, p, '=') {
            let q = sp(s, p + 1);
            match digits_end(s, q) {
                Some(d) => Some((d, Some((q, d)), None, None)),
                None => None,
            }
        } else {
            None
        }
    } else {
        None
    }
}

pub open spec fn total_at(s: Seq<char>, i: int) -> Option<Hit> {
    if boundary(s, i) {
        let r = if ci_at(s, i, "total"@) && class_at(s, i + 5, CharClass::Space) {
            sp(s, i + 5)
        } else {
            i
        };
        if ci_at(s, r, "region"@) {
            keyed_count(s, plural_end(s, r + 6))
        } else {
            None
        }
    } else {
        None
    }
}

pub open spec fn threads_at(s: Seq<char>, i: int) -> Option<Hit> {
    if boundary(s, i) {
        let r = if ci_at(s, i, "region"@) && class_at(s, i + 6, CharClass::Space) {
            sp(s, i + 6)
        } else if ci_at(s, i, "total"@) && class_at(s, i + 5, CharClass::Space) {
            sp(s, i + 5)
        } else {
            i
        };
        if ci_at(s, r, "thread"@) {
            keyed_count(s, plural_end(s, r + 6))
        } else {
            None
        }
    } else {
        None
    }
}

pub open spec fn coords_at(s: Seq<char>, i: int) -> Option<Hit> {
    if is_char(s, i, '(') {
        let a = sp(s, i + 1);
        match integer_end(s, a) {
            Some(b) => {
                let c = sp(s, b);
                if is_char(s, c, ',') {
                    let d = sp(s, c + 1);
                    match integer_end(s, d) {
                        Some(e) => {
                            let f = sp(s, e);
                            if is_char(s, f, ')') {
                                Some((f + 1, Some((a, b)), Some((d, e)), None))
                            } else {
                                None
                            }
                        },
                        None => None,
                    }
                } else {
                    None
                }
            },
            None => None,
        }
    } else {
        None
    }
}

pub open spec fn world_keyed_at(s: Seq<char>, i: int) -> Option<Hit> {
    if boundary(s, i) && ci_at(s, i, "world"@) {
        let a = sp(s, i + 5);
        if is_char(s, a, ':') || is_char(s, a, '=') {
            let b = sp(s, a + 1);
            let c = if is_char(s, b, '"') {
                b + 1
            } else {
                b
            };
            if class_at(s, c, CharClass::KeyedWorld) {
                let e = run_end(s, c, CharClass::KeyedWorld);
                Some((e, Some((c, e)), None, None))
            } else {
                None
            }
        } else {
            None
        }
    } else {
        None
    }
}

/// Where the label of `metric` found at `i` ends.
pub open spec fn label_end(s: Seq<char>, i: int, metric: Metric) -> Option<int> {
    match metric {
        Metric::Tps => if ci_at(s, i, "tps"@) {
            Some(i + 3)
        } else {
            None
        },
        Metric::Mspt => if ci_at(s, i, "mspt"@) {
            Some(i + 4)
        } else {
            None
        },
        Metric::Util => if ci_at(s, i, "util"@) {
            if ci_at(s, i + 4, "isation"@) || ci_at(s, i + 4, "ization"@) {
                Some(i + 11)
            } else {
                Some(i + 4)
            }
        } else {
            None
        },
        Metric::Players => if ci_at(s, i, "player"@) {
            Some(plural_end(s, i + 6))
        } else {
            None
        },
        Metric::Entities => if ci_at(s, i, "entit"@) {
            if ci_letter_at(s, i + 5, 'y') {
                Some(i + 6)
            } else if ci_at(s, i + 5, "ies"@) {
                Some(i + 8)
            } else {
                None
            }
        } else {
            None
        },
        Metric::Chunks => if ci_at(s, i, "chunk"@) {
            Some(plural_end(s, i + 5))
        } else {
            None
        },
    }
}

pub open spec fn field_at(s: Seq<char>, i: int, metric: Metric) -> Option<Hit> {
    if boundary(s, i) {
        match label_end(s, i, metric) {
            Some(e) => if boundary(s, e) {
                let a = sp(s, e);
                let b = if is_char(s, a, ':') || is_char(s, a, '=') {
                    sp(s, a + 1)
                } else {
                    a
                };
                match signed_end(s, b) {
                    Some(f) => Some((f, Some((b, f)), None, None)),
                    None => None,
                }
            } else {
                None
            },
            None => None,
        }
    } else {
        None
    }
}

/// After the first count, where ` of a max of ` leaves off, when it is there.
pub open spec fn of_a_max_of(s: Seq<char>, r: int) -> Option<int> {
    if ci_at(s, r, "of"@) && class_at(s, r + 2, CharClass::Space) {
        let a = sp(s, r + 2);
        if ci_at(s, a, "a"@) && class_at(s, a + 1, CharClass::Space) {
            let b = sp(s, a + 1);
            if ci_at(s, b, "max"@) && class_at(s, b + 3, CharClass::Space) {
                let c = sp(s, b + 3);
                if ci_at(s, c, "of"@) && class_at(s, c + 2, CharClass::Space) {
                    Some(sp(s, c + 2))
                } else {
                    None
                }
            } else {
                None
            }
        } else {
            None
        }
    } else {
        None
    }
}

/// The span of the maximum after a first count that ends at `c`.
pub open spec fn max_after(s: Seq<char>, c: int) -> Option<(int, int)> {
    let r = sp(s, c);
    if is_char(s, r, '/') {
        let t = sp(s, r + 1);
        match digits_end(s, t) {
            Some(u) => Some((t, u)),
            None => None,
        }
    } else if r > c {
        match of_a_max_of(s, r) {
            Some(t) => match digits_end(s, t) {
                Some(u) => Some((t, u)),
                None => None,
            },
            None => None,
        }
    } else {
        None
    }
}

pub open spec fn counts_at(s: Seq<char>, i: int) -> Option<Hit> {
    if ci_at(s, i, "there"@) && class_at(s, i + 5, CharClass::Space) {
        let a = sp(s, i + 5);
        if ci_at(s, a, "are"@) && class_at(s, a + 3, CharClass::Space) {
            let b = sp(s, a + 3);
            match digits_end(s, b) {
                Some(c) => match max_after(s, c) {
                    Some((t, u)) => Some((u, Some((b, c)), Some((t, u)), None)),
                    None => Some((c, Some((b, c)), None, None)),
                },
                None => None,
            }
        } else {
            None
        }
    } else {
        None
    }
}

pub open spec fn running_at(s: Seq<char>, i: int) -> Option<Hit> {
    if ci_at(s, i, "running"@) && class_at(s, i + 7, CharClass::Space) {
        let a = sp(s, i + 7);
        if class_at(s, a, CharClass::Letter) {
            let b = run_end(s, a + 1, CharClass::NameTail);
            if class_at(s, b, CharClass::Space) {
                let c = sp(s, b);
                if ci_at(s, c, "version"@) {
                    Some((c + 7, Some((a, b)), None, None))
                } else {
                    None
                }
            } else {
                None
            }
        } else {
            None
        }
    } else {
        None
    }
}

/// The lazy group takes the text between the colon and the next `)` without
/// the whitespace around it; when there is nothing but whitespace, its last
/// character.
pub open spec fn mc_at(s: Seq<char>, i: int) -> Option<Hit> {
    if is_char(s, i, '(') {
        let a = sp(s, i + 1);
        if ci_at(s, a, "mc"@) {
            let b = sp(s, a + 2);
            if is_char(s, b, ':') {
                let j = b + 1;
                let e = find_char(s, j, ')');
                if e < s.len() {
                    let c = sp(s, j);
                    if c < e {
                        Some((e + 1, Some((c, crate::text::last_non_space_end(s, e))), None, None))
                    } else if e > j {
                        Some((e + 1, Some((e - 1, e)), None, None))
                    } else {
                        None
                    }
                } else {
                    None
                }
            } else {
                None
            }
        } else {
            None
        }
    } else {
        None
    }
}

/// The engine prefers a second decimal part, but only where a word boundary
/// follows it; failing that, the version ends at the first one.
pub open spec fn bare_version_at(s: Seq<char>, i: int) -> Option<Hit> {
    if boundary(s, i) && is_char(s, i, '1') && is_char(s, i + 1, '.') && class_at(s, i + 2, CharClass::Decimal) {
        let p = run_end(s, i + 2, CharClass::Decimal);
        let q = run_end(s, p + 1, CharClass::Decimal);
        if is_char(s, p, '.') && class_at(s, p + 1, CharClass::Decimal) && boundary(s, q) {
            Some((q, Some((i, q)), None, None))
        } else if boundary(s, p) {
            Some((p, Some((i, p)), None, None))
        } else {
            None
        }
    } else {
        None
    }
}

/// What `pattern` matches when the engine starts at `i`.
pub open spec fn match_at(s: Seq<char>, i: int, pattern: Pattern) -> Option<Hit> {
    match pattern {
        Pattern::Ansi => ansi_at(s, i),
        Pattern::Number => number_at(s, i),
        Pattern::FromLast => from_last_at(s, i),
        Pattern::Triple => triple_at(s, i),
        Pattern::Total => total_at(s, i),
        Pattern::Threads => threads_at(s, i),
        Pattern::Coords => coords_at(s, i),
        Pattern::WorldKeyed => world_keyed_at(s, i),
        Pattern::Field(metric) => field_at(s, i, metric),
        Pattern::Counts => counts_at(s, i),
        Pattern::Running => running_at(s, i),
        Pattern::Mc => mc_at(s, i),
        Pattern::BareVersion => bare_version_at(s, i),
    }
}

/// The leftmost match of `pattern` that starts at or after `i`: its start,
/// and the match.
pub open spec fn first_hit(s: Seq<char>, i: int, pattern: Pattern) -> Option<(int, Hit)>
    decreases s.len() + 1 - i,
{
    if 0 <= i <= s.len() {
        match match_at(s, i, pattern) {
            Some(hit) => Some((i, hit)),
            None => first_hit(s, i + 1, pattern),
        }
    } else {
        None
    }
}

/// Every match of `pattern` from `i` on, each search resuming where the last
/// match ended.
pub open spec fn all_hits(s: Seq<char>, i: int, pattern: Pattern) -> Seq<(int, Hit)>
    decreases s.len() + 1 - i,
{
    match first_hit(s, i, pattern) {
        Some((k, hit)) => if i <= k < hit.0 <= s.len() {
            seq![(k, hit)] + all_hits(s, hit.0, pattern)
        } else {
            Seq::empty()
        },
        None => Seq::empty(),
    }
}

fn hit(end: usize, one: Option<(usize, usize)>, two: Option<(usize, usize)>, three: Option<(usize, usize)>) -> (r: Option<Found>)
    ensures
        r == Some(Found { end, one, two, three }),
{
    Some(Found { end, one, two, three })
}

fn ansi_here(s: &Vec<char>, i: usize) -> (r: Option<Found>)
    requires
        i <= s.len(),
    ensures
        found_view(r) == ansi_at(s@, i as int),
        r matches Some(f) ==> within(f@, i as int, s@.len() as int),
{
    if char_is(s, i, '\u{1b}') && char_is(s, i + 1, '[') {
        let e = skip(s, i + 2, CharClass::AnsiParameter);
        if e < s.len() && (('a' <= s[e] && s[e] <= 'z') || ('A' <= s[e] && s[e] <= 'Z')) {
            return hit(e + 1, None, None, None);
        }
    }
    None
}

fn number_here(s: &Vec<char>, i: usize) -> (r: Option<Found>)
    requires
        i <= s.len(),
    ensures
        found_view(r) == number_at(s@, i as int),
        r matches Some(f) ==> within(f@, i as int, s@.len() as int),
{
    match signed_here(s, i) {
        Some(e) => hit(e, None, None, None),
        None => None,
    }
}

fn from_last_here(s: &Vec<char>, i: usize) -> (r: Option<Found>)
    requires
        i <= s.len(),
    ensures
        found_view(r) == from_last_at(s@, i as int),
        r matches Some(f) ==> within(f@, i as int, s@.len() as int),
{
    proof {
        reveal_strlit("from");
        reveal_strlit("last");
    }
    if ci_here(s, i, "from") && class_here(s, i + 4, CharClass::Space) {
        let b = skip(s, i + 4, CharClass::Space);
        if ci_here(s, b, "last") && class_here(s, b + 4, CharClass::Space) {
            let j = b + 4;
            let c = seek_char(s, j, ':');
            if c < s.len() && c - j >= 2 {
                let p = skip(s, j, CharClass::Space);
                let start = if p < c { p } else { c - 1 };
                return hit(c + 1, Some((start, c)), None, None);
            }
        }
    }
    None
}

fn triple_here(s: &Vec<char>, i: usize) -> (r: Option<Found>)
    requires
        i <= s.len(),
    ensures
        found_view(r) == triple_at(s@, i as int),
        r matches Some(f) ==> within(f@, i as int, s@.len() as int),
{
    if let Some(e1) = unsigned_here(s, i) {
        let p = skip(s, e1, CharClass::Space);
        if char_is(s, p, '/') {
            let q = skip(s, p + 1, CharClass::Space);
            if let Some(e2) = unsigned_here(s, q) {
                let r = skip(s, e2, CharClass::Space);
                if char_is(s, r, '/') {
                    let t = skip(s, r + 1, CharClass::Space);
                    if let Some(e3) = unsigned_here(s, t) {
                        return hit(e3, Some((i, e1)), Some((q, e2)), Some((t, e3)));
                    }
                }
            }
        }
    }
    None
}

fn plural_here(s: &Vec<char>, e: usize) -> (r: usize)
    requires
        e <= s.len(),
    ensures
        r as int == plural_end(s@, e as int),
        e <= r <= s@.len(),
{
    if e < s.len() && fold_matches(s[e], 's') {
        e + 1
    } else {
        e
    }
}

fn keyed_count_here(s: &Vec<char>, i: usize, e: usize) -> (r: Option<Found>)
    requires
        i < e <= s.len(),
    ensures
        found_view(r) == keyed_count(s@, e as int),
        r matches Some(f) ==> within(f@, i as int, s@.len() as int),
{
    if boundary_here(s, e) {
        let p = skip(s, e, CharClass::Space);
        if char_is(s, p, ':') || char_is(s, p, '=') {
            let q = skip(s, p + 1, CharClass::Space);
            if let Some(d) = digits_here(s, q) {
                return hit(d, Some((q, d)), None, None);
            }
        }
    }
    None
}

fn total_here(s: &Vec<char>, i: usize) -> (r: Option<Found>)
    requires
        i <= s.len(),
    ensures
        found_view(r) == total_at(s@, i as int),
        r matches Some(f) ==> within(f@, i as int, s@.len() as int),
{
    proof {
        reveal_strlit("total");
        reveal_strlit("region");
    }
    if !boundary_here(s, i) {
        return None;
    }
    let r = if ci_here(s, i, "total") && class_here(s, i + 5, CharClass::Space) {
        skip(s, i + 5, CharClass::Space)
    } else {
        i
    };
    if ci_here(s, r, "region") {
        let e = plural_here(s, r + 6);
        keyed_count_here(s, i, e)
    } else {
        None
    }
}

fn threads_here(s: &Vec<char>, i: usize) -> (r: Option<Found>)
    requires
        i <= s.len(),
    ensures
        found_view(r) == threads_at(s@, i as int),
        r matches Some(f) ==> within(f@, i as int, s@.len() as int),
{
    proof {
        reveal_strlit("total");
        reveal_strlit("region");
        reveal_strlit("thread");
    }
    if !boundary_here(s, i) {
        return None;
    }
    let r = if ci_here(s, i, "region") && class_here(s, i + 6, CharClass::Space) {
        skip(s, i + 6, CharClass::Space)
    } else if ci_here(s, i, "total") && class_here(s, i + 5, CharClass::Space) {
        skip(s, i + 5, CharClass::Space)
    } else {
        i
    };
    if ci_here(s, r, "thread") {
        let e = plural_here(s, r + 6);
        keyed_count_here(s, i, e)
    } else {
        None
    }
}

fn coords_here(s: &Vec<char>, i: usize) -> (r: Option<Found>)
    requires
        i <= s.len(),
    ensures
        found_view(r) == coords_at(s@, i as int),
        r matches Some(f) ==> within(f@, i as int, s@.len() as int),
{
    if char_is(s, i, '(') {
        let a = skip(s, i + 1, CharClass::Space);
        if let Some(b) = integer_here(s, a) {
            let c = skip(s, b, CharClass::Space);
            if char_is(s, c, ',') {
                let d = skip(s, c + 1, CharClass::Space);
                if let Some(e) = integer_here(s, d) {
                    let f = skip(s, e, CharClass::Space);
                    if char_is(s, f, ')') {
                        return hit(f + 1, Some((a, b)), Some((d, e)), None);
                    }
                }
            }
        }
    }
    None
}

fn world_keyed_here(s: &Vec<char>, i: usize) -> (r: Option<Found>)
    requires
        i <= s.len(),
    ensures
        found_view(r) == world_keyed_at(s@, i as int),
        r matches Some(f) ==> within(f@, i as int, s@.len() as int),
{
    proof {
        reveal_strlit("world");
    }
    if boundary_here(s, i) && ci_here(s, i, "world") {
        let a = skip(s, i + 5, CharClass::Space);
        if char_is(s, a, ':') || char_is(s, a, '=') {
            let b = skip(s, a + 1, CharClass::Space);
            let c = if char_is(s, b, '"') { b + 1 } else { b };
            if class_here(s, c, CharClass::KeyedWorld) {
                let e = skip(s, c, CharClass::KeyedWorld);
                proof {
                    lemma_run_end(s@, c + 1, CharClass::KeyedWorld);
                }
                return hit(e, Some((c, e)), None, None);
            }
        }
    }
    None
}

fn label_here(s: &Vec<char>, i: usize, metric: Metric) -> (r: Option<usize>)
    requires
        i <= s.len(),
    ensures
        r matches Some(e) ==> i < e <= s@.len(),
        match r {
            Some(e) => label_end(s@, i as int, metric) == Some(e as int),
            None => label_end(s@, i as int, metric) is None,
        },
{
    proof {
        reveal_strlit("tps");
        reveal_strlit("mspt");
        reveal_strlit("util");
        reveal_strlit("isation");
        reveal_strlit("ization");
        reveal_strlit("player");
        reveal_strlit("entit");
        reveal_strlit("ies");
        reveal_strlit("chunk");
    }
    match metric {
        Metric::Tps => if ci_here(s, i, "tps") {
            Some(i + 3)
        } else {
            None
        },
        Metric::Mspt => if ci_here(s, i, "mspt") {
            Some(i + 4)
        } else {
            None
        },
        Metric::Util => if ci_here(s, i, "util") {
            if ci_here(s, i + 4, "isation") || ci_here(s, i + 4, "ization") {
                Some(i + 11)
            } else {
                Some(i + 4)
            }
        } else {
            None
        },
        Metric::Players => if ci_here(s, i, "player") {
            Some(plural_here(s, i + 6))
        } else {
            None
        },
        Metric::Entities => if ci_here(s, i, "entit") {
            if i + 5 < s.len() && fold_matches(s[i + 5], 'y') {
                Some(i + 6)
            } else if ci_here(s, i + 5, "ies") {
                Some(i + 8)
            } else {
                None
            }
        } else {
            None
        },
        Metric::Chunks => if ci_here(s, i, "chunk") {
            Some(plural_here(s, i + 5))
        } else {
            None
        },
    }
}

fn field_here(s: &Vec<char>, i: usize, metric: Metric) -> (r: Option<Found>)
    requires
        i <= s.len(),
    ensures
        found_view(r) == field_at(s@, i as int, metric),
        r matches Some(f) ==> within(f@, i as int, s@.len() as int),
{
    if boundary_here(s, i) {
        if let Some(e) = label_here(s, i, metric) {
            if boundary_here(s, e) {
                let a = skip(s, e, CharClass::Space);
                let b = if char_is(s, a, ':') || char_is(s, a, '=') {
                    skip(s, a + 1, CharClass::Space)
                } else {
                    a
                };
                if let Some(f) = signed_here(s, b) {
                    return hit(f, Some((b, f)), None, None);
                }
            }
        }
    }
    None
}

fn of_a_max_of_here(s: &Vec<char>, r: usize) -> (t: Option<usize>)
    requires
        r <= s.len(),
    ensures
        t matches Some(t) ==> r < t <= s@.len(),
        match t {
            Some(t) => of_a_max_of(s@, r as int) == Some(t as int),
            None => of_a_max_of(s@, r as int) is None,
        },
{
    proof {
        reveal_strlit("of");
        reveal_strlit("a");
        reveal_strlit("max");
    }
    if ci_here(s, r, "of") && class_here(s, r + 2, CharClass::Space) {
        let a = skip(s, r + 2, CharClass::Space);
        if ci_here(s, a, "a") && class_here(s, a + 1, CharClass::Space) {
            let b = skip(s, a + 1, CharClass::Space);
            if ci_here(s, b, "max") && class_here(s, b + 3, CharClass::Space) {
                let c = skip(s, b + 3, CharClass::Space);
                if ci_here(s, c, "of") && class_here(s, c + 2, CharClass::Space) {
                    return Some(skip(s, c + 2, CharClass::Space));
                }
            }
        }
    }
    None
}

fn max_after_here(s: &Vec<char>, c: usize) -> (r: Option<(usize, usize)>)
    requires
        c <= s.len(),
    ensures
        r matches Some((t, u)) ==> c < t < u <= s@.len(),
        span_view(r) == max_after(s@, c as int),
{
    let r = skip(s, c, CharClass::Space);
    if char_is(s, r, '/') {
        let t = skip(s, r + 1, CharClass::Space);
        match digits_here(s, t) {
            Some(u) => Some((t, u)),
            None => None,
        }
    } else if r > c {
        match of_a_max_of_here(s, r) {
            Some(t) => match digits_here(s, t) {
                Some(u) => Some((t, u)),
                None => None,
            },
            None => None,
        }
    } else {
        None
    }
}

fn counts_here(s: &Vec<char>, i: usize) -> (r: Option<Found>)
    requires
        i <= s.len(),
    ensures
        found_view(r) == counts_at(s@, i as int),
        r matches Some(f) ==> within(f@, i as int, s@.len() as int),
{
    proof {
        reveal_strlit("there");
        reveal_strlit("are");
    }
    if ci_here(s, i, "there") && class_here(s, i + 5, CharClass::Space) {
        let a = skip(s, i + 5, CharClass::Space);
        if ci_here(s, a, "are") && class_here(s, a + 3, CharClass::Space) {
            let b = skip(s, a + 3, CharClass::Space);
            if let Some(c) = digits_here(s, b) {
                return match max_after_here(s, c) {
                    Some((t, u)) => hit(u, Some((b, c)), Some((t, u)), None),
                    None => hit(c, Some((b, c)), None, None),
                };
            }
        }
    }
    None
}

fn running_here(s: &Vec<char>, i: usize) -> (r: Option<Found>)
    requires
        i <= s.len(),
    ensures
        found_view(r) == running_at(s@, i as int),
        r matches Some(f) ==> within(f@, i as int, s@.len() as int),
{
    proof {
        reveal_strlit("running");
        reveal_strlit("version");
    }
    if ci_here(s, i, "running") && class_here(s, i + 7, CharClass::Space) {
        let a = skip(s, i + 7, CharClass::Space);
        if class_here(s, a, CharClass::Letter) {
            let b = skip(s, a + 1, CharClass::NameTail);
            if class_here(s, b, CharClass::Space) {
                let c = skip(s, b, CharClass::Space);
                if ci_here(s, c, "version") {
                    return hit(c + 7, Some((a, b)), None, None);
                }
            }
        }
    }
    None
}

fn mc_here(s: &Vec<char>, i: usize) -> (r: Option<Found>)
    requires
        i <= s.len(),
    ensures
        found_view(r) == mc_at(s@, i as int),
        r matches Some(f) ==> within(f@, i as int, s@.len() as int),
{
    proof {
        reveal_strlit("mc");
    }
    if char_is(s, i, '(') {
        let a = skip(s, i + 1, CharClass::Space);
        if ci_here(s, a, "mc") {
            let b = skip(s, a + 2, CharClass::Space);
            if char_is(s, b, ':') {
                let j = b + 1;
                let e = seek_char(s, j, ')');
                if e < s.len() {
                    let c = skip(s, j, CharClass::Space);
                    proof {
                        lemma_run_end(s@, j as int, CharClass::Space);
                    }
                    if c < e {
                        let mut to = e;
                        while to > c && space(s[to - 1])
                            invariant
                                c < e < s@.len(),
                                c < to <= e,
                                !is_space(s@[c as int]),
                                crate::text::last_non_space_end(s@, e as int)
                                    == crate::text::last_non_space_end(s@, to as int),
                            decreases to,
                        {
                            to -= 1;
                        }
                        return hit(e + 1, Some((c, to)), None, None);
                    } else if e > j {
                        return hit(e + 1, Some((e - 1, e)), None, None);
                    }
                }
            }
        }
    }
    None
}

fn bare_version_here(s: &Vec<char>, i: usize) -> (r: Option<Found>)
    requires
        i <= s.len(),
    ensures
        found_view(r) == bare_version_at(s@, i as int),
        r matches Some(f) ==> within(f@, i as int, s@.len() as int),
{
    if boundary_here(s, i) && char_is(s, i, '1') && char_is(s, i + 1, '.') && class_here(
        s,
        i + 2,
        CharClass::Decimal,
    ) {
        let p = skip(s, i + 2, CharClass::Decimal);
        if char_is(s, p, '.') && class_here(s, p + 1, CharClass::Decimal) {
            let q = skip(s, p + 1, CharClass::Decimal);
            if boundary_here(s, q) {
                return hit(q, Some((i, q)), None, None);
            }
        }
        if boundary_here(s, p) {
            return hit(p, Some((i, p)), None, None);
        }
    }
    None
}

/// Match `pattern` at `i`, as [`match_at`] says.
pub fn match_here(s: &Vec<char>, i: usize, pattern: Pattern) -> (r: Option<Found>)
    requires
        i <= s.len(),
    ensures
        found_view(r) == match_at(s@, i as int, pattern),
        r matches Some(f) ==> within(f@, i as int, s@.len() as int),
{
    match pattern {
        Pattern::Ansi => ansi_here(s, i),
        Pattern::Number => number_here(s, i),
        Pattern::FromLast => from_last_here(s, i),
        Pattern::Triple => triple_here(s, i),
        Pattern::Total => total_here(s, i),
        Pattern::Threads => threads_here(s, i),
        Pattern::Coords => coords_here(s, i),
        Pattern::WorldKeyed => world_keyed_here(s, i),
        Pattern::Field(metric) => field_here(s, i, metric),
        Pattern::Counts => counts_here(s, i),
        Pattern::Running => running_here(s, i),
        Pattern::Mc => mc_here(s, i),
        Pattern::BareVersion => bare_version_here(s, i),
    }
}

pub open spec fn located_view(r: Option<(usize, Found)>) -> Option<(int, Hit)> {
    match r {
        Some((k, f)) => Some((k as int, f@)),
        None => None,
    }
}

/// The leftmost match of `pattern` at or after `from`, as [`first_hit`] says.
pub fn find(s: &Vec<char>, from: usize, pattern: Pattern) -> (r: Option<(usize, Found)>)
    requires
        from <= s.len(),
    ensures
        located_view(r) == first_hit(s@, from as int, pattern),
        r matches Some((k, f)) ==> from <= k && within(f@, k as int, s@.len() as int),
{
    let mut i = from;
    loop
        invariant
            from <= i <= s.len(),
            first_hit(s@, from as int, pattern) == first_hit(s@, i as int, pattern),
        decreases s.len() - i,
    {
        if let Some(f) = match_here(s, i, pattern) {
            return Some((i, f));
        }
        if i == s.len() {
            proof {
                assert(first_hit(s@, i + 1, pattern) is None);
            }
            return None;
        }
        i += 1;
    }
}

pub open spec fn hits_view(hits: Seq<(usize, Found)>) -> Seq<(int, Hit)> {
    Seq::new(hits.len(), |j: int| (hits[j].0 as int, hits[j].1@))
}

/// Every match of `pattern`, as [`all_hits`] from the start says.
pub fn find_all(s: &Vec<char>, pattern: Pattern) -> (r: Vec<(usize, Found)>)
    ensures
        hits_view(r@) == all_hits(s@, 0, pattern),
        forall|j: int| 0 <= j < r@.len() ==> within((#[trigger] r@[j]).1@, r@[j].0 as int, s@.len() as int),
{
    let mut out: Vec<(usize, Found)> = Vec::new();
    let mut pos: usize = 0;
    loop
        invariant
            pos <= s.len(),
            hits_view(out@) + all_hits(s@, pos as int, pattern) == all_hits(s@, 0, pattern),
            forall|j: int| 0 <= j < out@.len() ==> within((#[trigger] out@[j]).1@, out@[j].0 as int, s@.len() as int),
        decreases s.len() - pos,
    {
        match find(s, pos, pattern) {
            Some((k, f)) => {
                proof {
                    let rest = all_hits(s@, f.end as int, pattern);
                    assert(all_hits(s@, pos as int, pattern) == seq![(k as int, f@)] + rest);
                    assert(hits_view(out@.push((k, f))) =~= hits_view(out@).push((k as int, f@)));
                    assert(hits_view(out@).push((k as int, f@)) + rest =~= hits_view(out@) + (seq![(k as int, f@)] + rest));
                }
                out.push((k, f));
                pos = f.end;
            },
            None => {
                proof {
                    assert(hits_view(out@) + Seq::<(int, Hit)>::empty() =~= hits_view(out@));
                }
                return out;
            },
        }
    }
}

} // verus!
