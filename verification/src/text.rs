//! Character-level helpers shared by the parsers and the editor.

use vstd::prelude::*;

verus! {

/// Unicode `White_Space`, the set `char::is_whitespace` and the `\s` class test.
pub open spec fn is_space(c: char) -> bool {
    ||| ('\t' <= c && c <= '\r')
    ||| c == ' '
    ||| c == '\u{85}'
    ||| c == '\u{a0}'
    ||| c == '\u{1680}'
    ||| ('\u{2000}' <= c && c <= '\u{200a}')
    ||| c == '\u{2028}'
    ||| c == '\u{2029}'
    ||| c == '\u{202f}'
    ||| c == '\u{205f}'
    ||| c == '\u{3000}'
}

pub fn space(c: char) -> (r: bool)
    ensures
        r == is_space(c),
{
    ('\t' <= c && c <= '\r') || c == ' ' || c == '\u{85}' || c == '\u{a0}' || c == '\u{1680}' || (
    '\u{2000}' <= c && c <= '\u{200a}') || c == '\u{2028}' || c == '\u{2029}' || c == '\u{202f}'
        || c == '\u{205f}' || c == '\u{3000}'
}

#[verifier::external_body]
fn push_char(s: &mut String, c: char)
    ensures
        final(s)@ == old(s)@.push(c),
{
    s.push(c);
}

/// The characters of `s`, in order.
pub fn chars_of(s: &str) -> (r: Vec<char>)
    ensures
        r@ == s@,
{
    let mut out: Vec<char> = Vec::new();
    for c in it: s.chars()
        invariant
            out@ == it.seq().take(it.index() as int),
    {
        out.push(c);
    }
    out
}


/// A `String` holding exactly `chars`.
pub fn string_from(chars: &Vec<char>) -> (r: String)
    ensures
        r@ == chars@,
{
    let mut out = String::new();
    let mut i: usize = 0;
    while i < chars.len()
        invariant
            i <= chars.len(),
            out@ == chars@.take(i as int),
        decreases chars.len() - i,
    {
        push_char(&mut out, chars[i]);
        i += 1;
        assert(chars@.take(i as int) == chars@.take((i - 1) as int).push(chars@[i - 1]));
    }
    assert(chars@.take(chars.len() as int) == chars@);
    out
}

/// A `String` holding the characters of `chars` from `start` up to `end`.
pub fn string_between(chars: &Vec<char>, start: usize, end: usize) -> (r: String)
    requires
        start <= end <= chars.len(),
    ensures
        r@ == chars@.subrange(start as int, end as int),
{
    let mut out = String::new();
    let mut i: usize = start;
    while i < end
        invariant
            start <= i <= end <= chars.len(),
            out@ == chars@.subrange(start as int, i as int),
        decreases end - i,
    {
        push_char(&mut out, chars[i]);
        i += 1;
        assert(chars@.subrange(start as int, i as int) == chars@.subrange(start as int, i - 1).push(
            chars@[i - 1],
        ));
    }
    out
}

/// `s` with its trailing `White_Space` removed, as `str::trim_end` does.
pub open spec fn trim_end(s: Seq<char>) -> Seq<char>
    decreases s.len(),
{
    if s.len() > 0 && is_space(s.last()) {
        trim_end(s.drop_last())
    } else {
        s
    }
}

/// `s` with its leading `White_Space` removed, as `str::trim_start` does.
pub open spec fn trim_start(s: Seq<char>) -> Seq<char>
    decreases s.len(),
{
    if s.len() > 0 && is_space(s[0]) {
        trim_start(s.drop_first())
    } else {
        s
    }
}

/// `s` with `White_Space` removed from both ends, as `str::trim` does.
pub open spec fn trim(s: Seq<char>) -> Seq<char> {
    trim_end(trim_start(s))
}

/// The index where `trim_start` begins: the first character that is not
/// `White_Space`, or `s.len()`.
pub open spec fn first_non_space(s: Seq<char>, from: int) -> int
    decreases s.len() - from,
{
    if from < s.len() && is_space(s[from]) {
        first_non_space(s, from + 1)
    } else {
        from
    }
}

pub proof fn lemma_trim_start_at(s: Seq<char>, from: int)
    requires
        0 <= from <= s.len(),
        forall|j: int| 0 <= j < from ==> is_space(#[trigger] s[j]),
    ensures
        from <= first_non_space(s, from) <= s.len(),
        trim_start(s) == s.subrange(first_non_space(s, from), s.len() as int),
    decreases s.len() - from,
{
    if from < s.len() && is_space(s[from]) {
        lemma_trim_start_at(s, from + 1);
    } else {
        lemma_trim_start_prefix(s, from);
    }
}

proof fn lemma_trim_start_prefix(s: Seq<char>, k: int)
    requires
        0 <= k <= s.len(),
        forall|j: int| 0 <= j < k ==> is_space(#[trigger] s[j]),
        k == s.len() || !is_space(s[k]),
    ensures
        trim_start(s) == s.subrange(k, s.len() as int),
    decreases k,
{
    if k == 0 {
        assert(s.subrange(0, s.len() as int) == s);
    } else {
        assert(s.len() > 0 && is_space(s[0]));
        let t = s.drop_first();
        assert forall|j: int| 0 <= j < k - 1 implies is_space(#[trigger] t[j]) by {
            assert(t[j] == s[j + 1]);
        }
        lemma_trim_start_prefix(t, k - 1);
        assert(t.subrange(k - 1, t.len() as int) == s.subrange(k, s.len() as int));
    }
}

/// The index where `trim_end` stops: one past the last character that is not
/// `White_Space` before `to`, or 0.
pub open spec fn last_non_space_end(s: Seq<char>, to: int) -> int
    decreases to,
{
    if to > 0 && is_space(s[to - 1]) {
        last_non_space_end(s, to - 1)
    } else {
        to
    }
}

pub proof fn lemma_trim_end_at(s: Seq<char>, to: int)
    requires
        0 <= to <= s.len(),
        forall|j: int| to <= j < s.len() ==> is_space(#[trigger] s[j]),
    ensures
        0 <= last_non_space_end(s, to) <= to,
        trim_end(s) == s.subrange(0, last_non_space_end(s, to)),
    decreases to,
{
    if to > 0 && is_space(s[to - 1]) {
        lemma_trim_end_at(s, to - 1);
    } else {
        lemma_trim_end_suffix(s, to);
    }
}

proof fn lemma_trim_end_suffix(s: Seq<char>, k: int)
    requires
        0 <= k <= s.len(),
        forall|j: int| k <= j < s.len() ==> is_space(#[trigger] s[j]),
        k == 0 || !is_space(s[k - 1]),
    ensures
        trim_end(s) == s.subrange(0, k),
    decreases s.len() - k,
{
    if k == s.len() {
        assert(s.subrange(0, s.len() as int) == s);
    } else {
        assert(s.len() > 0 && is_space(s.last()));
        let t = s.drop_last();
        assert forall|j: int| k <= j < t.len() implies is_space(#[trigger] t[j]) by {
            assert(t[j] == s[j]);
        }
        lemma_trim_end_suffix(t, k);
        assert(t.subrange(0, k) == s.subrange(0, k));
    }
}

/// Bounds of the trimmed part of `s[start..end]`, as `(from, to)`.
pub fn trim_bounds(s: &Vec<char>, start: usize, end: usize) -> (r: (usize, usize))
    requires
        start <= end <= s.len(),
    ensures
        start <= r.0 <= r.1 <= end,
        s@.subrange(r.0 as int, r.1 as int) == trim(s@.subrange(start as int, end as int)),
{
    let ghost piece = s@.subrange(start as int, end as int);
    let mut from = start;
    while from < end && space(s[from])
        invariant
            start <= from <= end <= s.len(),
            forall|j: int| start <= j < from ==> is_space(#[trigger] s@[j]),
        decreases end - from,
    {
        from += 1;
    }
    proof {
        assert forall|j: int| 0 <= j < from - start implies is_space(#[trigger] piece[j]) by {
            assert(piece[j] == s@[start + j]);
        }
        lemma_trim_start_prefix(piece, from - start);
    }
    let mut to = end;
    while to > from && space(s[to - 1])
        invariant
            from <= to <= end <= s.len(),
            forall|j: int| to <= j < end ==> is_space(#[trigger] s@[j]),
        decreases to,
    {
        to -= 1;
    }
    proof {
        let t = s@.subrange(from as int, end as int);
        assert(piece.subrange(from - start, piece.len() as int) == t);
        assert forall|j: int| to - from <= j < t.len() implies is_space(#[trigger] t[j]) by {
            assert(t[j] == s@[from + j]);
        }
        assert(to - from == 0 || !is_space(t[to - from - 1]));
        lemma_trim_end_suffix(t, to - from);
        assert(t.subrange(0, to - from) == s@.subrange(from as int, to as int));
    }
    (from, to)
}


/// The ASCII digit for `d`, which must be below ten.
pub open spec fn digit_char(d: int) -> char {
    (d + 48) as char
}

/// `n` written out in decimal, with no leading zeros.
pub open spec fn decimal(n: nat) -> Seq<char>
    decreases n,
{
    if n < 10 {
        seq![digit_char(n as int)]
    } else {
        decimal(n / 10).push(digit_char((n % 10) as int))
    }
}

/// `n` written out in decimal, with a leading `-` when it is negative.
pub open spec fn signed_decimal(n: int) -> Seq<char> {
    if n < 0 {
        seq!['-'] + decimal((-n) as nat)
    } else {
        decimal(n as nat)
    }
}

pub proof fn lemma_decimal_len(n: nat)
    ensures
        decimal(n).len() >= 1,
        n < 10 ==> decimal(n).len() == 1,
    decreases n,
{
    if n >= 10 {
        lemma_decimal_len(n / 10);
    }
}

/// Append the decimal digits of `n` to `out`.
pub fn push_decimal(out: &mut Vec<char>, n: u128)
    ensures
        final(out)@ == old(out)@ + decimal(n as nat),
    decreases n,
{
    if n >= 10 {
        push_decimal(out, n / 10);
    }
    let d = (n % 10) as u8;
    let c = (d + 48) as char;
    out.push(c);
    proof {
        assert(c == digit_char((n % 10) as int));
        if n >= 10 {
            assert(decimal(n as nat) == decimal((n / 10) as nat).push(c));
        }
    }
}

/// Append `n` in decimal, with a `-` in front when it is negative.
pub fn push_signed(out: &mut Vec<char>, n: i128)
    requires
        n > i128::MIN,
    ensures
        final(out)@ == old(out)@ + signed_decimal(n as int),
{
    if n < 0 {
        out.push('-');
        push_decimal(out, (-n) as u128);
        proof {
            assert(final(out)@ == old(out)@ + seq!['-'] + decimal((-n) as nat));
        }
    } else {
        push_decimal(out, n as u128);
    }
}

/// Append the characters of `s` to `out`.
pub fn push_str(out: &mut Vec<char>, s: &str)
    ensures
        final(out)@ == old(out)@ + s@,
{
    let chars = chars_of(s);
    push_all(out, &chars);
}

/// Append every element of `more` to `out`.
pub fn push_all(out: &mut Vec<char>, more: &Vec<char>)
    ensures
        final(out)@ == old(out)@ + more@,
{
    let ghost start = out@;
    let mut i: usize = 0;
    while i < more.len()
        invariant
            i <= more.len(),
            out@ == start + more@.take(i as int),
        decreases more.len() - i,
    {
        out.push(more[i]);
        i += 1;
        assert(more@.take(i as int) == more@.take(i - 1).push(more@[i - 1]));
    }
    assert(more@.take(more.len() as int) == more@);
}

/// `c` as `char::to_ascii_lowercase` leaves it.
pub open spec fn ascii_lower(c: char) -> char {
    if 'A' <= c && c <= 'Z' {
        ((c as u32) + 32) as char
    } else {
        c
    }
}

pub fn lower(c: char) -> (r: char)
    ensures
        r == ascii_lower(c),
{
    if 'A' <= c && c <= 'Z' {
        ((c as u8) + 32) as char
    } else {
        c
    }
}

/// Whether `a` and `b` agree ignoring ASCII case, as `eq_ignore_ascii_case` decides.
pub open spec fn eq_ignoring_ascii_case(a: Seq<char>, b: Seq<char>) -> bool {
    a.len() == b.len() && forall|i: int| 0 <= i < a.len() ==> ascii_lower(#[trigger] a[i]) == ascii_lower(b[i])
}

pub fn same_ignoring_ascii_case(a: &Vec<char>, b: &Vec<char>) -> (r: bool)
    ensures
        r == eq_ignoring_ascii_case(a@, b@),
{
    if a.len() != b.len() {
        return false;
    }
    let mut i: usize = 0;
    while i < a.len()
        invariant
            a.len() == b.len(),
            i <= a.len(),
            forall|j: int| 0 <= j < i ==> ascii_lower(#[trigger] a@[j]) == ascii_lower(b@[j]),
        decreases a.len() - i,
    {
        if lower(a[i]) != lower(b[i]) {
            return false;
        }
        i += 1;
    }
    true
}

/// Where the run of non-whitespace characters that starts at `i` ends.
pub open spec fn word_end(s: Seq<char>, i: int) -> int
    decreases s.len() - i,
{
    if 0 <= i < s.len() && !is_space(s[i]) {
        word_end(s, i + 1)
    } else {
        i
    }
}

pub proof fn lemma_word_end(s: Seq<char>, i: int)
    requires
        0 <= i <= s.len(),
    ensures
        i <= word_end(s, i) <= s.len(),
    decreases s.len() - i,
{
    if i < s.len() && !is_space(s[i]) {
        lemma_word_end(s, i + 1);
    }
}

/// The words of `s` from `i` on, as `str::split_whitespace` yields them.
pub open spec fn words_from(s: Seq<char>, i: int) -> Seq<Seq<char>>
    decreases s.len() - i,
{
    let a = first_non_space(s, i);
    if 0 <= i <= a < s.len() {
        let b = word_end(s, a);
        if a < b <= s.len() {
            seq![s.subrange(a, b)] + words_from(s, b)
        } else {
            Seq::empty()
        }
    } else {
        Seq::empty()
    }
}

pub open spec fn words_of(s: Seq<char>) -> Seq<Seq<char>> {
    words_from(s, 0)
}

pub open spec fn spans_of(s: Seq<char>, spans: Seq<(usize, usize)>) -> Seq<Seq<char>> {
    Seq::new(spans.len(), |j: int| s.subrange(spans[j].0 as int, spans[j].1 as int))
}

/// Where each word of `s` starts and ends, as `str::split_whitespace` finds
/// them.
pub fn word_spans(s: &Vec<char>) -> (r: Vec<(usize, usize)>)
    ensures
        spans_of(s@, r@) == words_of(s@),
        forall|j: int| 0 <= j < r@.len() ==> (#[trigger] r@[j]).0 <= r@[j].1 <= s@.len(),
{
    let mut out: Vec<(usize, usize)> = Vec::new();
    let mut i: usize = 0;
    loop
        invariant
            i <= s.len(),
            spans_of(s@, out@) + words_from(s@, i as int) == words_of(s@),
            forall|j: int| 0 <= j < out@.len() ==> (#[trigger] out@[j]).0 <= out@[j].1 <= s@.len(),
        decreases s.len() - i,
    {
        let mut a = i;
        while a < s.len() && space(s[a])
            invariant
                i <= a <= s.len(),
                first_non_space(s@, i as int) == first_non_space(s@, a as int),
            decreases s.len() - a,
        {
            a += 1;
        }
        if a == s.len() {
            proof {
                assert(spans_of(s@, out@) + Seq::<Seq<char>>::empty() =~= spans_of(s@, out@));
            }
            return out;
        }
        let mut b = a;
        while b < s.len() && !space(s[b])
            invariant
                a <= b <= s.len(),
                word_end(s@, a as int) == word_end(s@, b as int),
            decreases s.len() - b,
        {
            b += 1;
        }
        let ghost before = spans_of(s@, out@);
        out.push((a, b));
        proof {
            assert(spans_of(s@, out@) =~= before.push(s@.subrange(a as int, b as int)));
            assert(spans_of(s@, out@) + words_from(s@, b as int) =~= before + words_from(s@, i as int));
        }
        i = b;
    }
}

} // verus!
