//! Parsers for console output.
//!
//! Server forks word their reports differently and change the wording between
//! releases, so nothing here insists on an exact layout. Each parser strips
//! formatting, finds the labels it recognises, and harvests the numbers near
//! them. Anything it cannot make sense of is left as `None` rather than
//! guessed at, and the raw text stays available in the Log tab so a mismatch
//! is visible rather than silent.
//!
//! Numbers are read into millionths (see [`crate::metrics::UNIT`]): digits past
//! the sixth decimal are dropped, and values beyond what an `i64` of
//! millionths holds are held at its bounds.

use vstd::prelude::*;

use crate::server::{digits_value, is_digit, lemma_digits_step};
use crate::source::grammar::{
    all_hits, ansi_at, boundary, boundary_here, char_is, ci_at, ci_here, class_at, class_here, find,
    find_all, find_char, first_hit, hits_view, is_ascii_digit, is_char, lemma_find_char, match_here,
    run_end, seek_char, skip, sp, within, CharClass, Hit, Metric, Pattern,
};
use crate::metrics::{
    MsptReading, MsptWindow, Players, Region, RegionReport, ServerIdentity, TpsReading, UNIT,
};
use crate::text::{
    ascii_lower, chars_of, is_space, space, string_between, string_from, trim, trim_bounds, trim_start,
};

verus! {

/// `s` from `i` on without the ANSI escape sequences that start at or after
/// `i`, taken leftmost first.
pub open spec fn without_escapes(s: Seq<char>, i: int) -> Seq<char>
    decreases s.len() - i,
{
    if 0 <= i < s.len() {
        match ansi_at(s, i) {
            Some(hit) => if i < hit.0 <= s.len() {
                without_escapes(s, hit.0)
            } else {
                Seq::empty()
            },
            None => seq![s[i]] + without_escapes(s, i + 1),
        }
    } else {
        Seq::empty()
    }
}

/// `s` from `i` on without Minecraft's section-sign codes: a section sign and
/// the one character after it.
pub open spec fn without_sections(s: Seq<char>, i: int) -> Seq<char>
    decreases s.len() - i,
{
    if 0 <= i < s.len() {
        if s[i] == '\u{a7}' {
            if i + 2 <= s.len() {
                without_sections(s, i + 2)
            } else {
                Seq::empty()
            }
        } else {
            seq![s[i]] + without_sections(s, i + 1)
        }
    } else {
        Seq::empty()
    }
}

/// Console text without colour codes of either kind.
pub open spec fn stripped(s: Seq<char>) -> Seq<char> {
    without_sections(without_escapes(s, 0), 0)
}

fn strip_escapes(s: &Vec<char>) -> (r: Vec<char>)
    ensures
        r@ == without_escapes(s@, 0),
{
    let mut out: Vec<char> = Vec::new();
    let mut i: usize = 0;
    while i < s.len()
        invariant
            i <= s.len(),
            out@ + without_escapes(s@, i as int) == without_escapes(s@, 0),
        decreases s.len() - i,
    {
        match match_here(s, i, Pattern::Ansi) {
            Some(found) => {
                i = found.end;
            },
            None => {
                proof {
                    assert(out@.push(s@[i as int]) + without_escapes(s@, i + 1) =~= out@ + without_escapes(
                        s@,
                        i as int,
                    ));
                }
                out.push(s[i]);
                i += 1;
            },
        }
    }
    proof {
        assert(out@ + Seq::<char>::empty() =~= out@);
    }
    out
}

fn strip_sections(s: &Vec<char>) -> (r: Vec<char>)
    ensures
        r@ == without_sections(s@, 0),
{
    let mut out: Vec<char> = Vec::new();
    let mut i: usize = 0;
    while i < s.len()
        invariant
            i <= s.len(),
            out@ + without_sections(s@, i as int) == without_sections(s@, 0),
        decreases s.len() - i,
    {
        if s[i] == '\u{a7}' {
            if s.len() - i < 2 {
                proof {
                    assert(out@ + Seq::<char>::empty() =~= out@);
                }
                return out;
            }
            i += 2;
        } else {
            proof {
                assert(out@.push(s@[i as int]) + without_sections(s@, i + 1) =~= out@ + without_sections(
                    s@,
                    i as int,
                ));
            }
            out.push(s[i]);
            i += 1;
        }
    }
    proof {
        assert(out@ + Seq::<char>::empty() =~= out@);
    }
    out
}

fn stripped_chars(raw: &str) -> (r: Vec<char>)
    ensures
        r@ == stripped(raw@),
{
    let chars = chars_of(raw);
    let plain = strip_escapes(&chars);
    strip_sections(&plain)
}

/// Remove Minecraft section-sign colour codes and ANSI escapes.
pub fn strip_formatting(input: &str) -> (r: String)
    ensures
        r@ == stripped(input@),
{
    let out = stripped_chars(input);
    string_from(&out)
}

/// The lines of `s` from `start` on, as `str::lines` splits them: at each
/// `\n`, dropping a `\r` just before it, with no empty line after a final
/// `\n`.
pub open spec fn lines_from(s: Seq<char>, start: int) -> Seq<Seq<char>>
    decreases s.len() - start,
{
    if 0 <= start < s.len() {
        let k = find_char(s, start, '\n');
        if start <= k < s.len() {
            seq![without_cr(s.subrange(start, k))] + lines_from(s, k + 1)
        } else {
            seq![s.subrange(start, s.len() as int)]
        }
    } else {
        Seq::empty()
    }
}

pub open spec fn without_cr(line: Seq<char>) -> Seq<char> {
    if line.len() > 0 && line.last() == '\r' {
        line.drop_last()
    } else {
        line
    }
}

pub open spec fn lines_of(s: Seq<char>) -> Seq<Seq<char>> {
    lines_from(s, 0)
}

pub open spec fn spans_text(s: Seq<char>, spans: Seq<(usize, usize)>) -> Seq<Seq<char>> {
    Seq::new(spans.len(), |j: int| s.subrange(spans[j].0 as int, spans[j].1 as int))
}

/// Where each line of `s` starts and ends.
pub(crate) fn line_spans(s: &Vec<char>) -> (r: Vec<(usize, usize)>)
    ensures
        spans_text(s@, r@) == lines_of(s@),
        forall|j: int| 0 <= j < r@.len() ==> (#[trigger] r@[j]).0 <= r@[j].1 <= s@.len(),
{
    let mut out: Vec<(usize, usize)> = Vec::new();
    let mut start: usize = 0;
    while start < s.len()
        invariant
            start <= s.len(),
            spans_text(s@, out@) + lines_from(s@, start as int) == lines_of(s@),
            forall|j: int| 0 <= j < out@.len() ==> (#[trigger] out@[j]).0 <= out@[j].1 <= s@.len(),
        decreases s.len() - start,
    {
        let k = seek_char(s, start, '\n');
        let ghost before = spans_text(s@, out@);
        if k < s.len() {
            let end = if k > start && s[k - 1] == '\r' { k - 1 } else { k };
            proof {
                assert(s@.subrange(start as int, end as int) =~= without_cr(s@.subrange(start as int, k as int)));
            }
            out.push((start, end));
            proof {
                assert(spans_text(s@, out@) =~= before.push(s@.subrange(start as int, end as int)));
                assert(spans_text(s@, out@) + lines_from(s@, k + 1) =~= before + lines_from(s@, start as int));
            }
            start = k + 1;
        } else {
            out.push((start, s.len()));
            proof {
                assert(spans_text(s@, out@) =~= before.push(s@.subrange(start as int, s@.len() as int)));
                assert(spans_text(s@, out@) + lines_from(s@, s@.len() as int) =~= before + lines_from(
                    s@,
                    start as int,
                ));
            }
            start = s.len();
        }
    }
    proof {
        assert(spans_text(s@, out@) + Seq::<Seq<char>>::empty() =~= spans_text(s@, out@));
    }
    out
}

/// Copy `s[start..end]` out.
pub(crate) fn piece(s: &Vec<char>, start: usize, end: usize) -> (r: Vec<char>)
    requires
        start <= end <= s.len(),
    ensures
        r@ == s@.subrange(start as int, end as int),
{
    let mut out: Vec<char> = Vec::new();
    let mut i = start;
    while i < end
        invariant
            start <= i <= end <= s.len(),
            out@ == s@.subrange(start as int, i as int),
        decreases end - i,
    {
        out.push(s[i]);
        i += 1;
        proof {
            assert(out@ =~= s@.subrange(start as int, i as int));
        }
    }
    out
}

/// The lines of `s`, each copied out.
pub(crate) fn lines(s: &Vec<char>) -> (r: Vec<Vec<char>>)
    ensures
        r@.len() == lines_of(s@).len(),
        forall|j: int| 0 <= j < r@.len() ==> (#[trigger] r@[j])@ == lines_of(s@)[j],
{
    let spans = line_spans(s);
    let mut out: Vec<Vec<char>> = Vec::new();
    let mut j: usize = 0;
    while j < spans.len()
        invariant
            j <= spans@.len(),
            out@.len() == j,
            spans_text(s@, spans@) == lines_of(s@),
            forall|k: int| 0 <= k < spans@.len() ==> (#[trigger] spans@[k]).0 <= spans@[k].1 <= s@.len(),
            forall|k: int| 0 <= k < j ==> (#[trigger] out@[k])@ == lines_of(s@)[k],
        decreases spans@.len() - j,
    {
        let (a, b) = spans[j];
        out.push(piece(s, a, b));
        proof {
            assert(spans_text(s@, spans@)[j as int] == s@.subrange(a as int, b as int));
        }
        j += 1;
    }
    out
}

/// `10` raised to `n`.
pub open spec fn pow10(n: nat) -> nat
    decreases n,
{
    if n == 0 {
        1
    } else {
        10 * pow10((n - 1) as nat)
    }
}

pub open spec fn all_digits(t: Seq<char>) -> bool {
    forall|j: int| 0 <= j < t.len() ==> is_digit(#[trigger] t[j])
}

/// Millionths in the decimal fraction `f`: its first six digits, scaled.
pub open spec fn fraction_micros(f: Seq<char>) -> nat {
    let k = if f.len() < 6 {
        f.len()
    } else {
        6
    };
    digits_value(f.take(k as int)) * pow10((6 - k) as nat)
}

/// `v` held within the range of `i64`.
pub open spec fn clamp_i64(v: int) -> i64 {
    if v > i64::MAX {
        i64::MAX
    } else if v < i64::MIN {
        i64::MIN
    } else {
        v as i64
    }
}

/// The value, in millionths, of number text `t` of the form `-?D+(.D+)?`;
/// `None` where a digit is not ASCII, which no double parse accepts.
pub open spec fn decimal_value(t: Seq<char>) -> Option<i64> {
    let negative = t.len() > 0 && t[0] == '-';
    let body = if negative {
        t.drop_first()
    } else {
        t
    };
    let dot = find_char(body, 0, '.');
    let whole = body.take(dot);
    let fraction = if dot < body.len() {
        body.skip(dot + 1)
    } else {
        Seq::empty()
    };
    if whole.len() > 0 && all_digits(whole) && all_digits(fraction) {
        let magnitude = digits_value(whole) * 1_000_000 + fraction_micros(fraction);
        Some(clamp_i64(
            if negative {
                -magnitude
            } else {
                magnitude as int
            },
        ))
    } else {
        None
    }
}

/// Whole parts past this make every value land on a bound of `i64`.
const WHOLE_CAP: u128 = 10_000_000_000_000;

proof fn lemma_capped_step(x: nat, d: nat)
    ensures
        (if x * 10 + d < WHOLE_CAP {
            x * 10 + d
        } else {
            WHOLE_CAP as nat
        }) == (if (if x < WHOLE_CAP {
            x
        } else {
            WHOLE_CAP as nat
        }) * 10 + d < WHOLE_CAP {
            (if x < WHOLE_CAP {
                x
            } else {
                WHOLE_CAP as nat
            }) * 10 + d
        } else {
            WHOLE_CAP as nat
        }),
{
}

proof fn lemma_pow10_table()
    ensures
        pow10(0) == 1,
        pow10(1) == 10,
        pow10(2) == 100,
        pow10(3) == 1000,
        pow10(4) == 10000,
        pow10(5) == 100000,
        pow10(6) == 1000000,
{
    reveal_with_fuel(pow10, 7);
}

/// The value of the number text `s[start..end]`, as [`decimal_value`] says.
pub(crate) fn number_value(s: &Vec<char>, start: usize, end: usize) -> (r: Option<i64>)
    requires
        start <= end <= s.len(),
    ensures
        r == decimal_value(s@.subrange(start as int, end as int)),
{
    let ghost t = s@.subrange(start as int, end as int);
    let negative = start < end && s[start] == '-';
    let from = if negative { start + 1 } else { start };
    let ghost body = s@.subrange(from as int, end as int);
    proof {
        if negative {
            assert(body =~= t.drop_first());
        } else {
            assert(body =~= t);
        }
    }
    let mut dot = from;
    while dot < end && s[dot] != '.'
        invariant
            from <= dot <= end <= s.len(),
            forall|k: int| from <= k < dot ==> #[trigger] s@[k] != '.',
        decreases end - dot,
    {
        dot += 1;
    }
    proof {
        assert forall|k: int| 0 <= k < dot - from implies #[trigger] body[k] != '.' by {
            assert(body[k] == s@[k + from]);
        }
        if dot < end {
            assert(body[dot - from] == '.');
        }
        lemma_first_dot(body, dot - from);
    }
    let ghost whole = body.take(dot - from);
    // The whole part, held at WHOLE_CAP once past it.
    let mut value: u128 = 0;
    let mut i = from;
    while i < dot
        invariant
            from <= i <= dot <= end <= s.len(),
            t == s@.subrange(start as int, end as int),
            negative == (t.len() > 0 && t[0] == '-'),
            body == (if negative { t.drop_first() } else { t }),
            body == s@.subrange(from as int, end as int),
            find_char(body, 0, '.') == dot - from,
            whole == body.take(dot - from),
            all_digits(whole.take(i - from)),
            value == (if digits_value(whole.take(i - from)) < WHOLE_CAP {
                digits_value(whole.take(i - from))
            } else {
                WHOLE_CAP as nat
            }),
        decreases dot - i,
    {
        let c = s[i];
        if !('0' <= c && c <= '9') {
            proof {
                assert(whole[i - from] == c);
                assert(!all_digits(whole));
            }
            return None;
        }
        let d = (c as u32 - 48) as u128;
        proof {
            lemma_digits_step(whole, i - from);
            assert(whole[i - from] == c);
            lemma_capped_step(digits_value(whole.take(i - from)), d as nat);
            assert(whole.take(i - from + 1) =~= whole.take(i - from).push(c));
        }
        value = if value * 10 + d < WHOLE_CAP { value * 10 + d } else { WHOLE_CAP };
        i += 1;
    }
    proof {
        assert(whole.take(dot - from) =~= whole);
    }
    if dot == from {
        return None;
    }
    let ghost fraction = if dot < end { body.skip(dot - from + 1) } else { Seq::<char>::empty() };
    proof {
        if dot < end {
            assert(fraction =~= s@.subrange(dot + 1, end as int));
        }
        lemma_pow10_table();
    }
    let mut micros: u128 = 0;
    let mut taken: usize = 0;
    if dot < end {
        let mut j = dot + 1;
        while j < end
            invariant
                dot < j <= end <= s.len(),
                from < dot,
                t == s@.subrange(start as int, end as int),
                negative == (t.len() > 0 && t[0] == '-'),
                body == (if negative { t.drop_first() } else { t }),
                body == s@.subrange(from as int, end as int),
                find_char(body, 0, '.') == dot - from,
                whole == body.take(dot - from),
                whole.len() > 0 && all_digits(whole),
                fraction == body.skip(dot - from + 1),
                fraction == s@.subrange(dot + 1, end as int),
                all_digits(fraction.take(j - dot - 1)),
                taken == (if j - dot - 1 < 6 { j - dot - 1 } else { 6 }),
                micros == digits_value(fraction.take(taken as int)),
                micros < pow10(taken as nat),
                pow10(5) == 100000,
            decreases end - j,
        {
            let c = s[j];
            if !('0' <= c && c <= '9') {
                proof {
                    assert(fraction[j - dot - 1] == c);
                    assert(!is_digit(fraction[j - dot - 1]));
                }
                return None;
            }
            if taken < 6 {
                let d = (c as u32 - 48) as u128;
                proof {
                    lemma_pow10_le(taken as nat, 5);
                    lemma_digits_step(fraction, taken as int);
                    assert(fraction[taken as int] == c);
                    assert(pow10((taken + 1) as nat) == 10 * pow10(taken as nat));
                }
                micros = micros * 10 + d;
                taken += 1;
            }
            proof {
                assert(fraction.take(j - dot) =~= fraction.take(j - dot - 1).push(c));
            }
            j += 1;
        }
        proof {
            assert(fraction.take(end - dot - 1) =~= fraction);
        }
    }
    proof {
        lemma_pow10_table();
        assert(micros == digits_value(fraction.take(taken as int)));
    }
    let ghost kept = taken;
    proof {
        assert(micros == digits_value(fraction.take(kept as int)) * pow10(0));
    }
    while taken < 6
        invariant
            kept <= taken <= 6,
            micros == digits_value(fraction.take(kept as int)) * pow10((taken - kept) as nat),
            micros < pow10(taken as nat),
            pow10(6) == 1000000,
        decreases 6 - taken,
    {
        proof {
            lemma_pow10_le(taken as nat, 6);
            let a = digits_value(fraction.take(kept as int));
            let b0 = pow10((taken - kept) as nat);
            let b1 = pow10((taken + 1 - kept) as nat);
            assert(b1 == 10 * b0);
            assert(pow10((taken + 1) as nat) == 10 * pow10(taken as nat));
            assert(a * b1 == 10 * (a * b0)) by (nonlinear_arith)
                requires
                    b1 == 10 * b0,
            ;
        }
        micros = micros * 10;
        taken += 1;
    }
    proof {
        lemma_pow10_table();
        assert(micros == fraction_micros(fraction));
    }
    let magnitude: u128 = value * 1_000_000 + micros;
    let result: i64 = if negative {
        if magnitude > 9_223_372_036_854_775_808 {
            i64::MIN
        } else {
            (0 - (magnitude as i128)) as i64
        }
    } else {
        if magnitude > 9_223_372_036_854_775_807 {
            i64::MAX
        } else {
            magnitude as i64
        }
    };
    proof {
        let exact = digits_value(whole) * 1_000_000 + fraction_micros(fraction);
        if digits_value(whole) >= WHOLE_CAP {
            assert(exact >= WHOLE_CAP * 1_000_000);
        }
    }
    Some(result)
}

proof fn lemma_pow10_le(a: nat, b: nat)
    requires
        a <= b,
    ensures
        1 <= pow10(a) <= pow10(b),
    decreases b,
{
    if b > a {
        lemma_pow10_le(a, (b - 1) as nat);
    } else if b > 0 {
        lemma_pow10_le((b - 1) as nat, (b - 1) as nat);
    }
}

/// The first `.` in `body` is at `dot`, so the part before it holds none.
proof fn lemma_first_dot(body: Seq<char>, dot: int)
    requires
        0 <= dot <= body.len(),
        forall|k: int| 0 <= k < dot ==> #[trigger] body[k] != '.',
        dot == body.len() || body[dot] == '.',
    ensures
        find_char(body, 0, '.') == dot,
{
    lemma_find_char_from(body, 0, dot);
}

proof fn lemma_find_char_from(body: Seq<char>, i: int, dot: int)
    requires
        0 <= i <= dot <= body.len(),
        forall|k: int| 0 <= k < dot ==> #[trigger] body[k] != '.',
        dot == body.len() || body[dot] == '.',
    ensures
        find_char(body, i, '.') == dot,
    decreases dot - i,
{
    if i < dot {
        lemma_find_char_from(body, i + 1, dot);
    }
}

/// The values of the numbers that `hits` found in `s`, each as a double
/// parse would read it, those it refuses left out.
pub open spec fn hit_values(s: Seq<char>, hits: Seq<(int, Hit)>) -> Seq<i64>
    decreases hits.len(),
{
    if hits.len() == 0 {
        Seq::empty()
    } else {
        let rest = hit_values(s, hits.drop_last());
        let (k, hit) = hits.last();
        match decimal_value(s.subrange(k, hit.0)) {
            Some(v) => rest.push(v),
            None => rest,
        }
    }
}

/// Every number in `s`, in order.
pub open spec fn numbers_in(s: Seq<char>) -> Seq<i64> {
    hit_values(s, all_hits(s, 0, Pattern::Number))
}

/// Every finite number in `text`, in order.
fn numbers(text: &Vec<char>) -> (r: Vec<i64>)
    ensures
        r@ == numbers_in(text@),
{
    let hits = find_all(text, Pattern::Number);
    let ghost all = hits_view(hits@);
    let mut out: Vec<i64> = Vec::new();
    let mut j: usize = 0;
    while j < hits.len()
        invariant
            j <= hits@.len(),
            all == hits_view(hits@),
            all == all_hits(text@, 0, Pattern::Number),
            forall|k: int| 0 <= k < hits@.len() ==> within((#[trigger] hits@[k]).1@, hits@[k].0 as int, text@.len() as int),
            out@ == hit_values(text@, all.take(j as int)),
        decreases hits@.len() - j,
    {
        let (k, found) = hits[j];
        proof {
            assert(all.take(j + 1).drop_last() =~= all.take(j as int));
            assert(all.take(j + 1).last() == (k as int, found@));
        }
        match number_value(text, k, found.end) {
            Some(v) => out.push(v),
            None => {},
        }
        j += 1;
    }
    proof {
        assert(all.take(hits@.len() as int) =~= all);
    }
    out
}

/// The names in a comma-separated list from `p` on, trimmed, the empty ones
/// left out.
pub open spec fn listed_from(t: Seq<char>, p: int) -> Seq<Seq<char>>
    decreases t.len() - p,
{
    if 0 <= p <= t.len() {
        let k = find_char(t, p, ',');
        if p <= k < t.len() {
            let name = trim(t.subrange(p, k));
            let rest = listed_from(t, k + 1);
            if name.len() > 0 {
                seq![name] + rest
            } else {
                rest
            }
        } else {
            let name = trim(t.subrange(p, t.len() as int));
            if name.len() > 0 {
                seq![name]
            } else {
                Seq::empty()
            }
        }
    } else {
        Seq::empty()
    }
}

/// The names in the comma-separated list `t`, trimmed, the empty ones left
/// out.
pub open spec fn listed(t: Seq<char>) -> Seq<Seq<char>> {
    listed_from(t, 0)
}

pub open spec fn strings_view(v: Seq<String>) -> Seq<Seq<char>> {
    Seq::new(v.len(), |j: int| v[j]@)
}

fn listed_names(t: &Vec<char>) -> (r: Vec<String>)
    ensures
        strings_view(r@) == listed(t@),
{
    let mut out: Vec<String> = Vec::new();
    let mut p: usize = 0;
    loop
        invariant
            p <= t.len(),
            strings_view(out@) + listed_from(t@, p as int) == listed(t@),
        decreases t.len() - p,
    {
        let k = seek_char(t, p, ',');
        let (a, b) = trim_bounds(t, p, k);
        let ghost before = strings_view(out@);
        if b > a {
            out.push(string_between(t, a, b));
            proof {
                assert(strings_view(out@) =~= before.push(t@.subrange(a as int, b as int)));
            }
        }
        if k < t.len() {
            proof {
                let name = trim(t@.subrange(p as int, k as int));
                let rest = listed_from(t@, k + 1);
                if name.len() > 0 {
                    assert(strings_view(out@) + rest =~= before + (seq![name] + rest));
                }
            }
            p = k + 1;
        } else {
            proof {
                let name = trim(t@.subrange(p as int, t@.len() as int));
                if name.len() > 0 {
                    assert(strings_view(out@) =~= before + seq![name]);
                } else {
                    assert(strings_view(out@) =~= before + Seq::<Seq<char>>::empty());
                }
            }
            return out;
        }
    }
}

/// The window labels in a phrase such as `from last 5s, 1m, 5m:`.
pub open spec fn window_labels_of(s: Seq<char>) -> Option<Seq<Seq<char>>> {
    match first_hit(s, 0, Pattern::FromLast) {
        Some((_, hit)) => match hit.1 {
            Some((a, b)) => {
                let labels = listed(s.subrange(a, b));
                if labels.len() > 0 {
                    Some(labels)
                } else {
                    None
                }
            },
            None => None,
        },
        None => None,
    }
}

pub open spec fn opt_strings_view(labels: Option<Vec<String>>) -> Option<Seq<Seq<char>>> {
    match labels {
        Some(v) => Some(strings_view(v@)),
        None => None,
    }
}

/// The window labels in a phrase such as `from last 5s, 1m, 5m:`.
fn window_labels(text: &Vec<char>) -> (r: Option<Vec<String>>)
    ensures
        opt_strings_view(r) == window_labels_of(text@),
{
    match find(text, 0, Pattern::FromLast) {
        Some((_, found)) => match found.one {
            Some((a, b)) => {
                let names = listed_names(&piece(text, a, b));
                if names.len() > 0 {
                    Some(names)
                } else {
                    None
                }
            },
            None => None,
        },
        None => None,
    }
}

/// The label of the value at `index`: the announced one, else its position
/// counted from one, as `#2`.
pub open spec fn label_for(labels: Seq<Seq<char>>, index: int) -> Seq<char> {
    if index < labels.len() {
        labels[index]
    } else {
        seq!['#'] + crate::text::decimal((index + 1) as nat)
    }
}

/// Each value with its label.
pub open spec fn labelled<V>(labels: Seq<Seq<char>>, values: Seq<V>) -> Seq<(Seq<char>, V)> {
    Seq::new(values.len(), |j: int| (label_for(labels, j), values[j]))
}

pub open spec fn pairs_view<V>(pairs: Seq<(String, V)>) -> Seq<(Seq<char>, V)> {
    Seq::new(pairs.len(), |j: int| (pairs[j].0@, pairs[j].1))
}

pub open spec fn labels_or_none(labels: Option<Seq<Seq<char>>>) -> Seq<Seq<char>> {
    match labels {
        Some(labels) => labels,
        None => Seq::empty(),
    }
}

/// Pair values with labels, inventing positional labels when there are more
/// values than the header announced.
fn label_values<V: Copy>(labels: Option<Vec<String>>, values: Vec<V>) -> (r: Vec<(String, V)>)
    ensures
        pairs_view(r@) == labelled(labels_or_none(opt_strings_view(labels)), values@),
{
    let names: Vec<String> = match labels {
        Some(names) => names,
        None => Vec::new(),
    };
    let ghost wanted = labelled(labels_or_none(opt_strings_view(labels)), values@);
    proof {
        assert(strings_view(names@) == labels_or_none(opt_strings_view(labels)));
    }
    let mut out: Vec<(String, V)> = Vec::new();
    let mut j: usize = 0;
    while j < values.len()
        invariant
            j <= values@.len(),
            wanted == labelled(strings_view(names@), values@),
            pairs_view(out@) == wanted.take(j as int),
        decreases values@.len() - j,
    {
        let label = if j < names.len() {
            names[j].clone()
        } else {
            let mut text: Vec<char> = Vec::new();
            text.push('#');
            crate::text::push_decimal(&mut text, j as u128 + 1);
            string_from(&text)
        };
        let ghost before = pairs_view(out@);
        out.push((label, values[j]));
        proof {
            assert(pairs_view(out@) =~= before.push((label@, values@[j as int])));
            assert(wanted.take(j + 1) =~= wanted.take(j as int).push(wanted[j as int]));
        }
        j += 1;
    }
    proof {
        assert(wanted.take(values@.len() as int) =~= wanted);
    }
    out
}

/// Whether the lowercase ASCII `word` starts at `k` in `line` once the line
/// is lowercased the ASCII way.
pub open spec fn lower_at(line: Seq<char>, k: int, word: Seq<char>) -> bool {
    &&& 0 <= k
    &&& k + word.len() <= line.len()
    &&& forall|j: int| 0 <= j < word.len() ==> ascii_lower(#[trigger] line[k + j]) == word[j]
}

/// Whether `line.to_ascii_lowercase()` contains `word`.
pub open spec fn mentions(line: Seq<char>, word: Seq<char>) -> bool {
    exists|k: int| lower_at(line, k, word)
}

fn mentions_word(line: &Vec<char>, word: &str) -> (r: bool)
    ensures
        r == mentions(line@, word@),
{
    let w = chars_of(word);
    if w.len() > line.len() {
        proof {
            assert forall|k: int| !lower_at(line@, k, word@) by {}
        }
        return false;
    }
    let mut k: usize = 0;
    while k <= line.len() - w.len()
        invariant
            w@ == word@,
            w.len() <= line.len(),
            forall|m: int| 0 <= m < k ==> !lower_at(line@, m, word@),
        decreases line.len() - k,
    {
        let mut j: usize = 0;
        let mut same = true;
        while j < w.len()
            invariant
                w@ == word@,
                k + w.len() <= line.len(),
                j <= w.len(),
                same == forall|m: int| 0 <= m < j ==> ascii_lower(#[trigger] line@[k + m]) == w@[m],
            decreases w.len() - j,
        {
            if crate::text::lower(line[k + j]) != w[j] {
                same = false;
            }
            j += 1;
        }
        if same {
            proof {
                assert(lower_at(line@, k as int, word@));
            }
            return true;
        }
        k += 1;
    }
    proof {
        assert forall|m: int| !lower_at(line@, m, word@) by {
            if 0 <= m && m + word@.len() <= line@.len() {
                assert(m < k);
            }
        }
    }
    false
}

/// What follows the first colon of `line`; all of it when there is none.
pub open spec fn after_colon(line: Seq<char>) -> Seq<char> {
    let c = find_char(line, 0, ':');
    if c < line.len() {
        line.subrange(c + 1, line.len() as int)
    } else {
        line
    }
}

fn after_colon_of(line: &Vec<char>) -> (r: Vec<char>)
    ensures
        r@ == after_colon(line@),
{
    let c = seek_char(line, 0, ':');
    if c < line.len() {
        piece(line, c + 1, line.len())
    } else {
        piece(line, 0, line.len())
    }
}

/// The values that can be tick rates: from 0 to 100.
pub open spec fn rates(values: Seq<i64>) -> Seq<i64>
    decreases values.len(),
{
    if values.len() == 0 {
        Seq::empty()
    } else {
        let rest = rates(values.drop_last());
        if 0 <= values.last() <= 100 * UNIT {
            rest.push(values.last())
        } else {
            rest
        }
    }
}

fn rates_of(values: &Vec<i64>) -> (r: Vec<i64>)
    ensures
        r@ == rates(values@),
{
    let mut out: Vec<i64> = Vec::new();
    let mut j: usize = 0;
    while j < values.len()
        invariant
            j <= values@.len(),
            out@ == rates(values@.take(j as int)),
        decreases values@.len() - j,
    {
        proof {
            assert(values@.take(j + 1).drop_last() =~= values@.take(j as int));
        }
        if 0 <= values[j] && values[j] <= 100 * UNIT {
            out.push(values[j]);
        }
        j += 1;
    }
    proof {
        assert(values@.take(values@.len() as int) =~= values@);
    }
    out
}

/// The headline rates a line of a `/tps` report carries: none unless it names
/// TPS and is not about one region; then the rates after its first colon,
/// labelled by the windows it announces.
#[verifier::opaque]
pub open spec fn tps_line(line: Seq<char>) -> Seq<(Seq<char>, i64)> {
    if mentions(line, "tps"@) && !mentions(line, "region"@) {
        labelled(labels_or_none(window_labels_of(line)), rates(numbers_in(after_colon(line))))
    } else {
        Seq::empty()
    }
}

/// The rates of the first of `lines` from `j` on that carries any.
pub open spec fn tps_from(lines: Seq<Seq<char>>, j: int) -> Seq<(Seq<char>, i64)>
    decreases lines.len() - j,
{
    if 0 <= j < lines.len() {
        if tps_line(lines[j]).len() > 0 {
            tps_line(lines[j])
        } else {
            tps_from(lines, j + 1)
        }
    } else {
        Seq::empty()
    }
}

fn tps_of_line(line: &Vec<char>) -> (r: Vec<(String, i64)>)
    ensures
        pairs_view(r@) == tps_line(line@),
{
    reveal(tps_line);
    if mentions_word(line, "tps") && !mentions_word(line, "region") {
        let labels = window_labels(line);
        let tail = after_colon_of(line);
        let values = rates_of(&numbers(&tail));
        label_values(labels, values)
    } else {
        let out: Vec<(String, i64)> = Vec::new();
        proof {
            assert(pairs_view(out@) =~= Seq::<(Seq<char>, i64)>::empty());
        }
        out
    }
}

/// Parse a `/tps` report.
///
/// Handles Paper's single line (`TPS from last 1m, 5m, 15m: 20.0, 20.0, 20.0`)
/// and Folia's longer report, where the headline rate sits among per-region
/// detail. Values above 20 are kept as reported; some forks overshoot slightly.
pub fn parse_tps(raw: &str) -> (r: TpsReading)
    ensures
        pairs_view(r.windows@) == tps_from(lines_of(stripped(raw@)), 0),
{
    let text = stripped_chars(raw);
    let all = lines(&text);
    let ghost ls = lines_of(text@);
    let mut j: usize = 0;
    while j < all.len()
        invariant
            j <= all@.len(),
            all@.len() == ls.len(),
            forall|k: int| 0 <= k < all@.len() ==> (#[trigger] all@[k])@ == ls[k],
            ls == lines_of(stripped(raw@)),
            tps_from(ls, 0) == tps_from(ls, j as int),
        decreases all@.len() - j,
    {
        let windows = tps_of_line(&all[j]);
        proof {
            assert(all@[j as int]@ == ls[j as int]);
            assert(pairs_view(windows@).len() == windows@.len());
        }
        if windows.len() > 0 {
            proof {
                assert(tps_line(ls[j as int]).len() > 0);
                assert(tps_from(ls, j as int) == tps_line(ls[j as int]));
            }
            return TpsReading { windows };
        }
        j += 1;
    }
    let out = TpsReading::default();
    proof {
        assert(pairs_view(out.windows@) =~= Seq::<(Seq<char>, i64)>::empty());
    }
    out
}

/// The windows of `hits`, each read from its three groups; a triple with a
/// number a double parse refuses is left out.
pub open spec fn triple_windows(s: Seq<char>, hits: Seq<(int, Hit)>) -> Seq<MsptWindow>
    decreases hits.len(),
{
    if hits.len() == 0 {
        Seq::empty()
    } else {
        let rest = triple_windows(s, hits.drop_last());
        let hit = hits.last().1;
        match (hit.1, hit.2, hit.3) {
            (Some((a1, b1)), Some((a2, b2)), Some((a3, b3))) => match (
                decimal_value(s.subrange(a1, b1)),
                decimal_value(s.subrange(a2, b2)),
                decimal_value(s.subrange(a3, b3)),
            ) {
                (Some(average), Some(minimum), Some(maximum)) => rest.push(
                    MsptWindow { average, minimum, maximum },
                ),
                _ => rest,
            },
            _ => rest,
        }
    }
}

/// The first of `lines` from `j` on that mentions `word`, ignoring ASCII case.
pub open spec fn first_mentioning(lines: Seq<Seq<char>>, word: Seq<char>, j: int) -> Option<Seq<char>>
    decreases lines.len() - j,
{
    if 0 <= j < lines.len() {
        if mentions(lines[j], word) {
            Some(lines[j])
        } else {
            first_mentioning(lines, word, j + 1)
        }
    } else {
        None
    }
}

/// Tick durations in a report: every average/minimum/maximum triple, or, when
/// there is none, the first number on the first line that mentions MSPT taken
/// as all three.
pub open spec fn mspt_values(text: Seq<char>) -> Seq<MsptWindow> {
    let found = triple_windows(text, all_hits(text, 0, Pattern::Triple));
    if found.len() > 0 {
        found
    } else {
        match first_mentioning(lines_of(text), "mspt"@, 0) {
            Some(line) => {
                let values = numbers_in(line);
                if values.len() > 0 {
                    seq![MsptWindow { average: values[0], minimum: values[0], maximum: values[0] }]
                } else {
                    Seq::empty()
                }
            },
            None => Seq::empty(),
        }
    }
}

fn triples(text: &Vec<char>) -> (r: Vec<MsptWindow>)
    ensures
        r@ == triple_windows(text@, all_hits(text@, 0, Pattern::Triple)),
{
    let hits = find_all(text, Pattern::Triple);
    let ghost all = hits_view(hits@);
    let mut out: Vec<MsptWindow> = Vec::new();
    let mut j: usize = 0;
    while j < hits.len()
        invariant
            j <= hits@.len(),
            all == hits_view(hits@),
            all == all_hits(text@, 0, Pattern::Triple),
            forall|k: int| 0 <= k < hits@.len() ==> within((#[trigger] hits@[k]).1@, hits@[k].0 as int, text@.len() as int),
            out@ == triple_windows(text@, all.take(j as int)),
        decreases hits@.len() - j,
    {
        let (_, found) = hits[j];
        proof {
            assert(all.take(j + 1).drop_last() =~= all.take(j as int));
            assert(all.take(j + 1).last().1 == found@);
        }
        if let (Some((a1, b1)), Some((a2, b2)), Some((a3, b3))) = (found.one, found.two, found.three) {
            let average = number_value(text, a1, b1);
            let minimum = number_value(text, a2, b2);
            let maximum = number_value(text, a3, b3);
            if let (Some(average), Some(minimum), Some(maximum)) = (average, minimum, maximum) {
                out.push(MsptWindow { average, minimum, maximum });
            }
        }
        j += 1;
    }
    proof {
        assert(all.take(hits@.len() as int) =~= all);
    }
    out
}

/// Whether `mspt` is what a tick-time reply reading `text` says: each figure
/// triple found, under the window label in its place, if any.
pub open spec fn mspt_read(mspt: MsptReading, text: Seq<char>) -> bool {
    pairs_view(mspt.windows@) == labelled(labels_or_none(window_labels_of(text)), mspt_values(text))
}

/// Parse an `/mspt` report: tick durations as average/minimum/maximum triples,
/// one per window.
pub fn parse_mspt(raw: &str) -> (r: MsptReading)
    ensures
        mspt_read(r, stripped(raw@)),
        pairs_view(r.windows@) == labelled(
            labels_or_none(window_labels_of(stripped(raw@))),
            mspt_values(stripped(raw@)),
        ),
{
    let text = stripped_chars(raw);
    let labels = window_labels(&text);
    let mut windows = triples(&text);
    if windows.len() == 0 {
        let all = lines(&text);
        let ghost ls = lines_of(text@);
        let mut j: usize = 0;
        while j < all.len()
            invariant
                j <= all@.len(),
                all@.len() == ls.len(),
                forall|k: int| 0 <= k < all@.len() ==> (#[trigger] all@[k])@ == ls[k],
                ls == lines_of(text@),
                text@ == stripped(raw@),
                opt_strings_view(labels) == window_labels_of(text@),
                first_mentioning(ls, "mspt"@, 0) == first_mentioning(ls, "mspt"@, j as int),
                windows@.len() == 0,
                windows@ == triple_windows(text@, all_hits(text@, 0, Pattern::Triple)),
            decreases all@.len() - j,
        {
            proof {
                assert(all@[j as int]@ == ls[j as int]);
            }
            if mentions_word(&all[j], "mspt") {
                let values = numbers(&all[j]);
                if values.len() > 0 {
                    let average = values[0];
                    windows.push(MsptWindow { average, minimum: average, maximum: average });
                }
                proof {
                    assert(windows@ =~= mspt_values(text@));
                }
                return MsptReading { windows: label_values(labels, windows) };
            }
            j += 1;
        }
        proof {
            assert(windows@ =~= mspt_values(text@));
        }
    }
    MsptReading { windows: label_values(labels, windows) }
}

/// Where the word `region` of a block header ends, when `line` opens with
/// one: `(?i)^\s*(?:-\s*)?region\b`.
pub open spec fn header_end(line: Seq<char>) -> Option<int> {
    let a = sp(line, 0);
    let b = if is_char(line, a, '-') {
        sp(line, a + 1)
    } else {
        a
    };
    if ci_at(line, b, "region"@) && boundary(line, b + 6) {
        Some(b + 6)
    } else {
        None
    }
}

fn header_here(line: &Vec<char>) -> (r: Option<usize>)
    ensures
        r matches Some(e) ==> e <= line@.len(),
        match r {
            Some(e) => header_end(line@) == Some(e as int),
            None => header_end(line@) is None,
        },
{
    proof {
        reveal_strlit("region");
    }
    let size = line.len();
    let a = skip(line, 0, CharClass::Space);
    let b = if a < size && line[a] == '-' { skip(line, a + 1, CharClass::Space) } else { a };
    if ci_here(line, b, "region") && boundary_here(line, b + 6) {
        Some(b + 6)
    } else {
        None
    }
}

/// Whether `line` carries on the block above it: indented, or a list item,
/// and not blank.
pub open spec fn continues_block(line: Seq<char>) -> bool {
    &&& (line.len() > 0 && is_space(line[0])) || (trim_start(line).len() > 0 && trim_start(line)[0] == '-')
    &&& trim(line).len() > 0
}

fn continues_here(line: &Vec<char>) -> (r: bool)
    ensures
        r == continues_block(line@),
{
    let f = skip(line, 0, CharClass::Space);
    proof {
        lemma_space_run(line@, 0);
        crate::text::lemma_trim_start_at(line@, 0);
    }
    let (a, b) = trim_bounds(line, 0, line.len());
    proof {
        assert(line@.subrange(0, line@.len() as int) =~= line@);
    }
    let indented = line.len() > 0 && space(line[0]);
    let listed = f < line.len() && line[f] == '-';
    (indented || listed) && b > a
}

proof fn lemma_space_run(s: Seq<char>, i: int)
    requires
        0 <= i <= s.len(),
    ensures
        run_end(s, i, CharClass::Space) == crate::text::first_non_space(s, i),
    decreases s.len() - i,
{
    if i < s.len() && is_space(s[i]) {
        lemma_space_run(s, i + 1);
    }
}

/// The region blocks that `lines` form: each header line opens one, and the
/// lines that carry on after it are joined to it with newlines.
pub open spec fn blocks_of(lines: Seq<Seq<char>>) -> Seq<Seq<char>>
    decreases lines.len(),
{
    if lines.len() == 0 {
        Seq::empty()
    } else {
        let blocks = blocks_of(lines.drop_last());
        let line = lines.last();
        if header_end(line) is Some {
            blocks.push(line)
        } else if blocks.len() > 0 && continues_block(line) {
            blocks.update(blocks.len() - 1, blocks.last() + seq!['\n'] + line)
        } else {
            blocks
        }
    }
}

/// The last ASCII digit in `b[a..d]`.
pub open spec fn last_ascii_digit(b: Seq<char>, a: int, d: int) -> Option<int>
    decreases d - a,
{
    if a < d {
        if is_ascii_digit(b[d - 1]) {
            Some(d - 1)
        } else {
            last_ascii_digit(b, a, d - 1)
        }
    } else {
        None
    }
}

/// The world a block header names without a key:
/// `(?i)^\s*(?:-\s*)?region\b[\s#:]*\d*[\s:]*[\[("]?\s*([A-Za-z0-9_.-]+)`.
/// When no name follows, the engine backs into the region number and takes
/// its last ASCII digit alone.
pub open spec fn world_bare(b: Seq<char>) -> Option<(int, int)> {
    match header_end(b) {
        Some(h) => {
            let a = run_end(b, h, CharClass::SpaceHashColon);
            let d = run_end(b, a, CharClass::Decimal);
            let e = run_end(b, d, CharClass::SpaceColon);
            let q = if is_char(b, e, '[') || is_char(b, e, '(') || is_char(b, e, '"') {
                e + 1
            } else {
                e
            };
            let w = sp(b, q);
            if class_at(b, w, CharClass::WorldName) {
                Some((w, run_end(b, w, CharClass::WorldName)))
            } else {
                match last_ascii_digit(b, a, d) {
                    Some(k) => Some((k, k + 1)),
                    None => None,
                }
            }
        },
        None => None,
    }
}

fn world_bare_here(b: &Vec<char>) -> (r: Option<(usize, usize)>)
    ensures
        r matches Some((x, y)) ==> x <= y <= b@.len(),
        crate::source::grammar::span_view(r) == world_bare(b@),
{
    let h = match header_here(b) {
        Some(h) => h,
        None => return None,
    };
    let a = skip(b, h, CharClass::SpaceHashColon);
    let d = skip(b, a, CharClass::Decimal);
    let e = skip(b, d, CharClass::SpaceColon);
    let q = if e < b.len() && (b[e] == '[' || b[e] == '(' || b[e] == '"') { e + 1 } else { e };
    let w = skip(b, q, CharClass::Space);
    if class_here(b, w, CharClass::WorldName) {
        let end = skip(b, w, CharClass::WorldName);
        return Some((w, end));
    }
    let mut k = d;
    while k > a
        invariant
            a <= k <= d <= b@.len(),
            world_bare(b@) == (match last_ascii_digit(b@, a as int, d as int) {
                Some(k) => Some((k, k + 1)),
                None => None,
            }),
            last_ascii_digit(b@, a as int, d as int) == last_ascii_digit(b@, a as int, k as int),
        decreases k,
    {
        if '0' <= b[k - 1] && b[k - 1] <= '9' {
            return Some((k - 1, k));
        }
        k -= 1;
    }
    None
}

/// Whether `word` names a metric, ignoring ASCII case; such a word is never a
/// world name.
pub open spec fn metric_word(word: Seq<char>) -> bool {
    ||| crate::text::eq_ignoring_ascii_case("tps"@, word)
    ||| crate::text::eq_ignoring_ascii_case("mspt"@, word)
    ||| crate::text::eq_ignoring_ascii_case("util"@, word)
    ||| crate::text::eq_ignoring_ascii_case("utilisation"@, word)
    ||| crate::text::eq_ignoring_ascii_case("utilization"@, word)
    ||| crate::text::eq_ignoring_ascii_case("players"@, word)
    ||| crate::text::eq_ignoring_ascii_case("entities"@, word)
    ||| crate::text::eq_ignoring_ascii_case("chunks"@, word)
}

/// A word that names a metric is never a world name.
pub fn is_metric_word(word: &str) -> (r: bool)
    ensures
        r == metric_word(word@),
{
    let w = chars_of(word);
    let same = |name: &str| -> (r: bool)
        ensures
            r == crate::text::eq_ignoring_ascii_case(name@, word@),
        { crate::text::same_ignoring_ascii_case(&chars_of(name), &w) };
    same("tps") || same("mspt") || same("util") || same("utilisation") || same("utilization") || same(
        "players",
    ) || same("entities") || same("chunks")
}

/// What `str::parse::<i64>` makes of `t`.
pub open spec fn parse_signed(t: Seq<char>) -> Option<i64> {
    if t.len() > 1 && t[0] == '-' {
        let digits = t.drop_first();
        if all_digits(digits) && digits_value(digits) <= 9_223_372_036_854_775_808 {
            Some((-(digits_value(digits) as int)) as i64)
        } else {
            None
        }
    } else {
        match crate::server::parse_unsigned(t, i64::MAX as nat) {
            Some(v) => Some(v as i64),
            None => None,
        }
    }
}

fn parse_signed_at(s: &Vec<char>, start: usize, end: usize) -> (r: Option<i64>)
    requires
        start <= end <= s.len(),
    ensures
        r == parse_signed(s@.subrange(start as int, end as int)),
{
    let ghost t = s@.subrange(start as int, end as int);
    if end - start > 1 && s[start] == '-' {
        proof {
            assert(t.drop_first() =~= s@.subrange(start + 1, end as int));
        }
        if s[start + 1] == '+' {
            proof {
                assert(!is_digit(t.drop_first()[0]));
            }
            return None;
        }
        let magnitude = crate::server::parse_unsigned_at(s, start + 1, end, 9_223_372_036_854_775_808);
        proof {
            assert(crate::server::unsigned_digits(t.drop_first()) =~= t.drop_first());
        }
        match magnitude {
            Some(m) => Some((0 - (m as i128)) as i64),
            None => None,
        }
    } else {
        match crate::server::parse_unsigned_at(s, start, end, 9_223_372_036_854_775_807) {
            Some(v) => Some(v as i64),
            None => None,
        }
    }
}

/// The text of the first group of a found match.
pub open spec fn group_text(s: Seq<char>, found: Option<(int, Hit)>) -> Option<Seq<char>> {
    match found {
        Some((_, hit)) => match hit.1 {
            Some((a, b)) => Some(s.subrange(a, b)),
            None => None,
        },
        None => None,
    }
}

/// The world a block names: keyed as `world=…` if anywhere, else right after
/// its header; never a metric's name.
pub open spec fn block_world(b: Seq<char>) -> Option<Seq<char>> {
    let named = match first_hit(b, 0, Pattern::WorldKeyed) {
        Some(found) => group_text(b, Some(found)),
        None => match world_bare(b) {
            Some((x, y)) => Some(b.subrange(x, y)),
            None => None,
        },
    };
    match named {
        Some(world) => if metric_word(world) {
            None
        } else {
            Some(world)
        },
        None => None,
    }
}

/// The centre chunk a block gives as `(x, z)`.
pub open spec fn block_chunk(b: Seq<char>) -> Option<(i64, i64)> {
    match first_hit(b, 0, Pattern::Coords) {
        Some((_, hit)) => match (hit.1, hit.2) {
            (Some((a, c)), Some((d, e))) => match (parse_signed(b.subrange(a, c)), parse_signed(b.subrange(d, e))) {
                (Some(x), Some(z)) => Some((x, z)),
                _ => None,
            },
            _ => None,
        },
        None => None,
    }
}

/// The first number after `metric`'s label in a block.
pub open spec fn field_value(b: Seq<char>, metric: Metric) -> Option<i64> {
    match group_text(b, first_hit(b, 0, Pattern::Field(metric))) {
        Some(t) => decimal_value(t),
        None => None,
    }
}

/// `v / 100`, rounded toward zero.
pub open spec fn hundredth(v: i64) -> i64 {
    if v >= 0 {
        (v / 100) as i64
    } else {
        (-((-(v as int)) / 100)) as i64
    }
}

/// A block's utilisation as a fraction: a figure written as a percentage, or
/// above 1.5, is taken as one.
pub open spec fn utilisation_value(b: Seq<char>) -> Option<i64> {
    match field_value(b, Metric::Util) {
        Some(v) => Some(
            if find_char(b, 0, '%') < b.len() || v > 1_500_000 {
                hundredth(v)
            } else {
                v
            },
        ),
        None => None,
    }
}

/// A count from a reading: whole units, none below zero, at most `u32::MAX`.
pub open spec fn whole_count(v: i64) -> u32 {
    if v <= 0 {
        0
    } else if v / 1_000_000 > u32::MAX {
        u32::MAX
    } else {
        (v / 1_000_000) as u32
    }
}

pub open spec fn count_value(b: Seq<char>, metric: Metric) -> Option<u32> {
    match field_value(b, metric) {
        Some(v) => Some(whole_count(v)),
        None => None,
    }
}

/// Whether a block says anything about a region: a figure or a chunk.
pub open spec fn describes_region(b: Seq<char>) -> bool {
    ||| block_chunk(b) is Some
    ||| field_value(b, Metric::Tps) is Some
    ||| field_value(b, Metric::Mspt) is Some
    ||| field_value(b, Metric::Util) is Some
    ||| field_value(b, Metric::Players) is Some
    ||| field_value(b, Metric::Entities) is Some
    ||| field_value(b, Metric::Chunks) is Some
}

pub open spec fn opt_string_view(text: Option<String>) -> Option<Seq<char>> {
    match text {
        Some(text) => Some(text@),
        None => None,
    }
}

/// Whether `region` holds what block `b` says.
pub open spec fn reads_as(region: Region, b: Seq<char>) -> bool {
    &&& opt_string_view(region.world) == block_world(b)
    &&& region.chunk == block_chunk(b)
    &&& region.tps == field_value(b, Metric::Tps)
    &&& region.mspt == field_value(b, Metric::Mspt)
    &&& region.utilisation == utilisation_value(b)
    &&& region.players == count_value(b, Metric::Players)
    &&& region.entities == count_value(b, Metric::Entities)
    &&& region.chunks == count_value(b, Metric::Chunks)
}

/// The first number following `metric`'s label in `block`, wherever it
/// appears.
fn field(block: &Vec<char>, metric: Metric) -> (r: Option<i64>)
    ensures
        r == field_value(block@, metric),
{
    match find(block, 0, Pattern::Field(metric)) {
        Some((_, found)) => match found.one {
            Some((a, b)) => number_value(block, a, b),
            None => None,
        },
        None => None,
    }
}

fn count_field(block: &Vec<char>, metric: Metric) -> (r: Option<u32>)
    ensures
        r == count_value(block@, metric),
{
    match field(block, metric) {
        Some(v) => {
            if v <= 0 {
                Some(0)
            } else {
                let whole = (v as u64) / 1_000_000;
                if whole > u32::MAX as u64 {
                    Some(u32::MAX)
                } else {
                    Some(whole as u32)
                }
            }
        },
        None => None,
    }
}

fn utilisation_field(block: &Vec<char>) -> (r: Option<i64>)
    ensures
        r == utilisation_value(block@),
{
    match field(block, Metric::Util) {
        Some(v) => {
            let percent = seek_char(block, 0, '%') < block.len();
            if percent || v > 1_500_000 {
                if v >= 0 {
                    Some(((v as u64) / 100) as i64)
                } else {
                    let magnitude = (0 - (v as i128)) as u64;
                    Some(0 - ((magnitude / 100) as i64))
                }
            } else {
                Some(v)
            }
        },
        None => None,
    }
}

fn block_world_of(block: &Vec<char>) -> (r: Option<String>)
    ensures
        opt_string_view(r) == block_world(block@),
{
    let named = match find(block, 0, Pattern::WorldKeyed) {
        Some((_, found)) => match found.one {
            Some((a, b)) => Some(string_between(block, a, b)),
            None => None,
        },
        None => match world_bare_here(block) {
            Some((x, y)) => Some(string_between(block, x, y)),
            None => None,
        },
    };
    match named {
        Some(world) => if is_metric_word(world.as_str()) {
            None
        } else {
            Some(world)
        },
        None => None,
    }
}

fn block_chunk_of(block: &Vec<char>) -> (r: Option<(i64, i64)>)
    ensures
        r == block_chunk(block@),
{
    match find(block, 0, Pattern::Coords) {
        Some((_, found)) => match (found.one, found.two) {
            (Some((a, c)), Some((d, e))) => match (parse_signed_at(block, a, c), parse_signed_at(block, d, e)) {
                (Some(x), Some(z)) => Some((x, z)),
                _ => None,
            },
            _ => None,
        },
        None => None,
    }
}

/// The region a block describes, if it describes one.
fn parse_region_block(block: &Vec<char>) -> (r: Option<Region>)
    ensures
        r is Some <==> describes_region(block@),
        r matches Some(region) ==> reads_as(region, block@),
{
    let region = Region {
        world: block_world_of(block),
        chunk: block_chunk_of(block),
        tps: field(block, Metric::Tps),
        mspt: field(block, Metric::Mspt),
        utilisation: utilisation_field(block),
        players: count_field(block, Metric::Players),
        entities: count_field(block, Metric::Entities),
        chunks: count_field(block, Metric::Chunks),
    };
    let has_data = region.tps.is_some() || region.mspt.is_some() || region.utilisation.is_some()
        || region.players.is_some() || region.entities.is_some() || region.chunks.is_some();
    if has_data || region.chunk.is_some() {
        Some(region)
    } else {
        None
    }
}

/// The count the first group of `pattern`'s first match in `line` gives, as a
/// `u32`.
pub open spec fn line_count(line: Seq<char>, pattern: Pattern) -> Option<u32> {
    match group_text(line, first_hit(line, 0, pattern)) {
        Some(t) => match crate::server::parse_unsigned(t, u32::MAX as nat) {
            Some(v) => Some(v as u32),
            None => None,
        },
        None => None,
    }
}

/// The count of the first of `lines` from `j` on that gives one.
pub open spec fn first_count(lines: Seq<Seq<char>>, pattern: Pattern, j: int) -> Option<u32>
    decreases lines.len() - j,
{
    if 0 <= j < lines.len() {
        match line_count(lines[j], pattern) {
            Some(v) => Some(v),
            None => first_count(lines, pattern, j + 1),
        }
    } else {
        None
    }
}

fn line_count_of(line: &Vec<char>, pattern: Pattern) -> (r: Option<u32>)
    ensures
        r == line_count(line@, pattern),
{
    match find(line, 0, pattern) {
        Some((_, found)) => match found.one {
            Some((a, b)) => match crate::server::parse_unsigned_at(line, a, b, u32::MAX as u64) {
                Some(v) => Some(v as u32),
                None => None,
            },
            None => None,
        },
        None => None,
    }
}

fn first_count_of(all: &Vec<Vec<char>>, pattern: Pattern) -> (r: Option<u32>)
    ensures
        r == first_count(texts(all@), pattern, 0),
{
    let ghost ls = texts(all@);
    let mut j: usize = 0;
    while j < all.len()
        invariant
            j <= all@.len(),
            ls == texts(all@),
            first_count(ls, pattern, 0) == first_count(ls, pattern, j as int),
        decreases all@.len() - j,
    {
        let count = line_count_of(&all[j], pattern);
        proof {
            assert(ls[j as int] == all@[j as int]@);
        }
        if count.is_some() {
            return count;
        }
        j += 1;
    }
    None
}

/// The text of each of `v`.
pub open spec fn texts(v: Seq<Vec<char>>) -> Seq<Seq<char>> {
    Seq::new(v.len(), |k: int| v[k]@)
}

fn block_texts(all: &Vec<Vec<char>>) -> (r: Vec<Vec<char>>)
    ensures
        texts(r@) == blocks_of(texts(all@)),
{
    let ghost ls = texts(all@);
    let mut out: Vec<Vec<char>> = Vec::new();
    let mut j: usize = 0;
    while j < all.len()
        invariant
            j <= all@.len(),
            ls == texts(all@),
            texts(out@) == blocks_of(ls.take(j as int)),
        decreases all@.len() - j,
    {
        let line = &all[j];
        let ghost before = texts(out@);
        proof {
            assert(ls.take(j + 1).drop_last() =~= ls.take(j as int));
            assert(ls.take(j + 1).last() == line@);
        }
        if header_here(line).is_some() {
            out.push(piece(line, 0, line.len()));
            proof {
                assert(line@.subrange(0, line@.len() as int) =~= line@);
                assert(texts(out@) =~= before.push(line@));
            }
        } else if out.len() > 0 && continues_here(line) {
            let ghost old_out = out@;
            let mut last = out.pop().unwrap();
            proof {
                assert(texts(out@) =~= before.drop_last());
                assert(last@ == before.last());
            }
            let ghost popped = last@;
            last.push('\n');
            crate::text::push_all(&mut last, line);
            proof {
                assert(last@ =~= popped + seq!['\n'] + line@);
            }
            let ghost kept = out@;
            out.push(last);
            proof {
                assert(texts(out@) =~= texts(kept).push(last@));
            }
            proof {
                assert(texts(out@) =~= before.update(before.len() - 1, before.last() + seq!['\n'] + line@));
            }
        }
        j += 1;
    }
    proof {
        assert(ls.take(all@.len() as int) =~= ls);
    }
    out
}

/// The blocks among `blocks` that describe a region, in order.
pub open spec fn described(blocks: Seq<Seq<char>>) -> Seq<Seq<char>>
    decreases blocks.len(),
{
    if blocks.len() == 0 {
        Seq::empty()
    } else {
        let rest = described(blocks.drop_last());
        if describes_region(blocks.last()) {
            rest.push(blocks.last())
        } else {
            rest
        }
    }
}

/// The blocks of a report that describe regions.
pub open spec fn region_blocks(text: Seq<char>) -> Seq<Seq<char>> {
    described(blocks_of(lines_of(text)))
}

/// Whether `report` is what a region report reading `text` says: one region
/// for each block that describes one, each read from its block; the thread
/// count given; and the region count given, or else the number of blocks.
pub open spec fn regions_read(report: RegionReport, text: Seq<char>) -> bool {
    &&& report.regions@.len() == region_blocks(text).len()
    &&& forall|j: int| 0 <= j < report.regions@.len() ==> reads_as(#[trigger] report.regions@[j], region_blocks(text)[j])
    &&& report.threads == first_count(lines_of(text), Pattern::Threads, 0)
    &&& report.total == match first_count(lines_of(text), Pattern::Total, 0) {
        Some(total) => Some(total),
        None => if region_blocks(text).len() > 0 {
            Some(region_blocks(text).len() as u32)
        } else {
            None
        },
    }
}

/// Utilisation is read as a fraction of the tick budget. A figure written as
/// a percentage, or above 1.5, is a percentage and reads as a hundredth of
/// itself, cut toward zero; so a region never reads as using more than 1.5 of
/// its budget unless its figure is above 150.
pub proof fn lemma_utilisation_is_a_fraction(report: RegionReport, text: Seq<char>, j: int)
    requires
        regions_read(report, text),
        0 <= j < report.regions@.len(),
    ensures
        ({
            let block = region_blocks(text)[j];
            let region = report.regions@[j];
            field_value(block, Metric::Util) matches Some(v) ==> ({
                &&& region.utilisation is Some
                &&& ((v > 1_500_000 || (v >= 0 && exists|k: int| 0 <= k < block.len() && block[k] == '%'))
                    ==> region.utilisation.unwrap() * 100 <= v < region.utilisation.unwrap() * 100 + 100)
                &&& region.utilisation.unwrap() > 1_500_000 ==> v > 150_000_000
            })
        }),
{
    let block = region_blocks(text)[j];
    let region = report.regions@[j];
    assert(reads_as(region, block));
    lemma_find_char(block, 0, '%');
    if field_value(block, Metric::Util) is Some {
        let v = field_value(block, Metric::Util).unwrap();
        if v >= 0 {
            assert((v / 100) * 100 <= v < (v / 100) * 100 + 100);
        }
        if exists|k: int| 0 <= k < block.len() && block[k] == '%' {
            let k = choose|k: int| 0 <= k < block.len() && block[k] == '%';
            assert(find_char(block, 0, '%') <= k);
        }
    }
}

/// The lines of a reply that do not mention a region, in order.
pub open spec fn without_region_lines(lines: Seq<Seq<char>>) -> Seq<Seq<char>>
    decreases lines.len(),
{
    if lines.len() == 0 {
        Seq::empty()
    } else if mentions(lines[0], "region"@) {
        without_region_lines(lines.drop_first())
    } else {
        seq![lines[0]] + without_region_lines(lines.drop_first())
    }
}

proof fn lemma_tps_from_after(front: Seq<Seq<char>>, rest: Seq<Seq<char>>, k: int)
    requires
        0 <= k <= rest.len(),
    ensures
        tps_from(front + rest, front.len() + k) == tps_from(rest, k),
    decreases rest.len() - k,
{
    if k < rest.len() {
        lemma_tps_from_after(front, rest, k + 1);
        assert((front + rest)[front.len() + k] == rest[k]);
    }
}

proof fn lemma_region_lines_skipped(lines: Seq<Seq<char>>, j: int)
    requires
        0 <= j <= lines.len(),
    ensures
        tps_from(lines, j) == tps_from(without_region_lines(lines.skip(j)), 0),
    decreases lines.len() - j,
{
    if j == lines.len() {
        assert(lines.skip(j) =~= Seq::<Seq<char>>::empty());
    } else {
        lemma_region_lines_skipped(lines, j + 1);
        let here = lines.skip(j);
        assert(here.drop_first() =~= lines.skip(j + 1));
        assert(here[0] == lines[j]);
        let rest = without_region_lines(lines.skip(j + 1));
        if mentions(lines[j], "region"@) {
            reveal(tps_line);
            assert(tps_line(lines[j]) =~= Seq::<(Seq<char>, i64)>::empty());
        } else {
            let kept = seq![lines[j]] + rest;
            assert(without_region_lines(here) == kept);
            assert(kept[0] == lines[j]);
            lemma_tps_from_after(seq![lines[j]], rest, 0);
        }
    }
}

/// Per-region lines carry no headline rate: a `/tps` reading is what the
/// same reply gives with every line that mentions a region taken out.
pub proof fn lemma_region_lines_add_no_rates(lines: Seq<Seq<char>>)
    ensures
        tps_from(lines, 0) == tps_from(without_region_lines(lines), 0),
{
    lemma_region_lines_skipped(lines, 0);
    assert(lines.skip(0) =~= lines);
}

/// Parse the per-region detail out of a Folia report.
///
/// Regions are reported one block at a time, and the wording differs between
/// builds, so a block is anything introduced by the word `region` and every
/// indented or comma-separated field that follows it. Recognised fields are
/// TPS, MSPT, utilisation, and the player, entity, and chunk counts.
pub fn parse_regions(raw: &str) -> (r: RegionReport)
    ensures
        regions_read(r, stripped(raw@)),
        r.regions@.len() == region_blocks(stripped(raw@)).len(),
        forall|j: int|
            0 <= j < r.regions@.len() ==> reads_as(#[trigger] r.regions@[j], region_blocks(stripped(raw@))[j]),
        r.threads == first_count(lines_of(stripped(raw@)), Pattern::Threads, 0),
        r.total == match first_count(lines_of(stripped(raw@)), Pattern::Total, 0) {
            Some(total) => Some(total),
            None => if region_blocks(stripped(raw@)).len() > 0 {
                Some(region_blocks(stripped(raw@)).len() as u32)
            } else {
                None
            },
        },
{
    let text = stripped_chars(raw);
    let all = lines(&text);
    proof {
        assert(texts(all@) =~= lines_of(text@));
    }
    let total = first_count_of(&all, Pattern::Total);
    let threads = first_count_of(&all, Pattern::Threads);
    let blocks = block_texts(&all);
    let ghost bs = texts(blocks@);
    let mut regions: Vec<Region> = Vec::new();
    let mut j: usize = 0;
    while j < blocks.len()
        invariant
            j <= blocks@.len(),
            bs == texts(blocks@),
            regions@.len() == described(bs.take(j as int)).len(),
            forall|k: int|
                0 <= k < regions@.len() ==> reads_as(#[trigger] regions@[k], described(bs.take(j as int))[k]),
        decreases blocks@.len() - j,
    {
        proof {
            assert(bs.take(j + 1).drop_last() =~= bs.take(j as int));
            assert(bs.take(j + 1).last() == blocks@[j as int]@);
        }
        if let Some(region) = parse_region_block(&blocks[j]) {
            regions.push(region);
        }
        j += 1;
    }
    proof {
        assert(bs.take(blocks@.len() as int) =~= bs);
    }
    let total = match total {
        Some(total) => Some(total),
        None => if regions.len() > 0 {
            Some(regions.len() as u32)
        } else {
            None
        },
    };
    RegionReport { regions, total, threads }
}

/// The number a group of the first `/list` count phrase in `text` gives.
pub open spec fn listed_count(text: Seq<char>, second: bool) -> Option<u32> {
    match first_hit(text, 0, Pattern::Counts) {
        Some((_, hit)) => match (if second {
            hit.2
        } else {
            hit.1
        }) {
            Some((a, b)) => match crate::server::parse_unsigned(text.subrange(a, b), u32::MAX as nat) {
                Some(v) => Some(v as u32),
                None => None,
            },
            None => None,
        },
        None => None,
    }
}

/// The names after the first colon, comma-separated.
pub open spec fn player_names(text: Seq<char>) -> Seq<Seq<char>> {
    let c = find_char(text, 0, ':');
    if c < text.len() {
        listed(text.subrange(c + 1, text.len() as int))
    } else {
        Seq::empty()
    }
}

fn listed_count_of(text: &Vec<char>, second: bool) -> (r: Option<u32>)
    ensures
        r == listed_count(text@, second),
{
    match find(text, 0, Pattern::Counts) {
        Some((_, found)) => match (if second { found.two } else { found.one }) {
            Some((a, b)) => match crate::server::parse_unsigned_at(text, a, b, u32::MAX as u64) {
                Some(v) => Some(v as u32),
                None => None,
            },
            None => None,
        },
        None => None,
    }
}

/// Whether `players` is what a player list reading `text` says: the names
/// listed, the maximum given, and the count online given, or else the number
/// of names.
pub open spec fn players_read(players: Players, text: Seq<char>) -> bool {
    &&& strings_view(players.names@) == player_names(text)
    &&& players.max == listed_count(text, true)
    &&& players.online == (match listed_count(text, false) {
        Some(online) if online > 0 => online,
        _ => if player_names(text).len() > 0 {
            player_names(text).len() as u32
        } else {
            0
        },
    })
}

/// Parse `/list`: `There are 3 of a max of 20 players online: alice, bob`.
pub fn parse_players(raw: &str) -> (r: Players)
    ensures
        players_read(r, stripped(raw@)),
        strings_view(r.names@) == player_names(stripped(raw@)),
        r.max == listed_count(stripped(raw@), true),
        r.online == (match listed_count(stripped(raw@), false) {
            Some(online) if online > 0 => online,
            _ => if player_names(stripped(raw@)).len() > 0 {
                player_names(stripped(raw@)).len() as u32
            } else {
                0
            },
        }),
{
    let text = stripped_chars(raw);
    let online = match listed_count_of(&text, false) {
        Some(online) => online,
        None => 0,
    };
    let max = listed_count_of(&text, true);
    let c = seek_char(&text, 0, ':');
    let names = if c < text.len() {
        listed_names(&piece(&text, c + 1, text.len()))
    } else {
        let none: Vec<String> = Vec::new();
        proof {
            assert(strings_view(none@) =~= Seq::<Seq<char>>::empty());
        }
        none
    };
    // A trailing count with no names still tells us how many are online.
    let online = if online == 0 && names.len() > 0 { names.len() as u32 } else { online };
    Players { online, max, names }
}

/// The first of `lines` from `j` on that is not blank, trimmed; empty when
/// every line is.
pub open spec fn first_filled(lines: Seq<Seq<char>>, j: int) -> Seq<char>
    decreases lines.len() - j,
{
    if 0 <= j < lines.len() {
        if trim(lines[j]).len() > 0 {
            trim(lines[j])
        } else {
            first_filled(lines, j + 1)
        }
    } else {
        Seq::empty()
    }
}

/// The line of a `/version` reply that is read: its first line with text on it.
pub open spec fn version_line(text: Seq<char>) -> Seq<char> {
    first_filled(lines_of(text), 0)
}

/// The Minecraft version a line gives: in `(MC: …)` if anywhere, else the
/// first bare `1.x` or `1.x.y`.
pub open spec fn minecraft_version(line: Seq<char>) -> Option<Seq<char>> {
    match group_text(line, first_hit(line, 0, Pattern::Mc)) {
        Some(version) => Some(version),
        None => group_text(line, first_hit(line, 0, Pattern::BareVersion)),
    }
}

fn group_string(line: &Vec<char>, pattern: Pattern) -> (r: Option<String>)
    ensures
        opt_string_view(r) == group_text(line@, first_hit(line@, 0, pattern)),
{
    match find(line, 0, pattern) {
        Some((_, found)) => match found.one {
            Some((a, b)) => Some(string_between(line, a, b)),
            None => None,
        },
        None => None,
    }
}

/// Whether `identity` is what a version reply reading `text` says: the
/// flavour named after `running`, the Minecraft version, and the line read.
pub open spec fn identity_read(identity: ServerIdentity, text: Seq<char>) -> bool {
    &&& opt_string_view(identity.flavour) == group_text(version_line(text), first_hit(version_line(text), 0, Pattern::Running))
    &&& opt_string_view(identity.minecraft_version) == minecraft_version(version_line(text))
    &&& opt_string_view(identity.raw) == if version_line(text).len() > 0 {
        Some(version_line(text))
    } else {
        None
    }
}

/// Parse `/version`: `This server is running Folia version 1.21.4-… (MC: 1.21.4)`.
pub fn parse_version(raw: &str) -> (r: ServerIdentity)
    ensures
        identity_read(r, stripped(raw@)),
        opt_string_view(r.flavour) == group_text(
            version_line(stripped(raw@)),
            first_hit(version_line(stripped(raw@)), 0, Pattern::Running),
        ),
        opt_string_view(r.minecraft_version) == minecraft_version(version_line(stripped(raw@))),
        opt_string_view(r.raw) == if version_line(stripped(raw@)).len() > 0 {
            Some(version_line(stripped(raw@)))
        } else {
            None
        },
{
    let text = stripped_chars(raw);
    let all = lines(&text);
    let ghost ls = lines_of(text@);
    let mut line: Vec<char> = Vec::new();
    let mut j: usize = 0;
    while j < all.len()
        invariant_except_break
            first_filled(ls, 0) == first_filled(ls, j as int),
            line@.len() == 0,
        invariant
            j <= all@.len(),
            all@.len() == ls.len(),
            ls == lines_of(text@),
            forall|k: int| 0 <= k < all@.len() ==> (#[trigger] all@[k])@ == ls[k],
        ensures
            line@ == first_filled(ls, 0),
        decreases all@.len() - j,
    {
        let (a, b) = trim_bounds(&all[j], 0, all[j].len());
        proof {
            assert(all@[j as int]@ == ls[j as int]);
            assert(all@[j as int]@.subrange(0, all@[j as int]@.len() as int) =~= all@[j as int]@);
        }
        if b > a {
            line = piece(&all[j], a, b);
            break;
        }
        j += 1;
    }
    proof {
        assert(line@ == version_line(text@));
    }
    let flavour = group_string(&line, Pattern::Running);
    let minecraft_version = match group_string(&line, Pattern::Mc) {
        Some(version) => Some(version),
        None => group_string(&line, Pattern::BareVersion),
    };
    let raw = if line.len() > 0 { Some(string_from(&line)) } else { None };
    ServerIdentity { flavour, minecraft_version, raw }
}

proof fn lemma_rates_in_range(values: Seq<i64>)
    ensures
        forall|j: int| 0 <= j < rates(values).len() ==> 0 <= #[trigger] rates(values)[j] <= 100 * UNIT,
    decreases values.len(),
{
    if values.len() > 0 {
        let rest = rates(values.drop_last());
        lemma_rates_in_range(values.drop_last());
        assert forall|j: int| 0 <= j < rates(values).len() implies 0 <= #[trigger] rates(values)[j] <= 100 * UNIT by {
            if j < rest.len() {
                assert(rest[j] == rates(values)[j]);
            }
        }
    }
}

proof fn lemma_tps_lines_in_range(lines: Seq<Seq<char>>, j: int)
    ensures
        forall|k: int|
            0 <= k < tps_from(lines, j).len() ==> 0 <= (#[trigger] tps_from(lines, j)[k]).1 <= 100 * UNIT,
    decreases lines.len() - j,
{
    reveal(tps_line);
    if 0 <= j < lines.len() {
        let line = lines[j];
        let values = rates(numbers_in(after_colon(line)));
        lemma_rates_in_range(numbers_in(after_colon(line)));
        if tps_line(line).len() == 0 {
            lemma_tps_lines_in_range(lines, j + 1);
            assert(tps_from(lines, j) == tps_from(lines, j + 1));
        } else {
            let labels = labels_or_none(window_labels_of(line));
            assert forall|k: int| 0 <= k < tps_line(line).len() implies 0 <= (#[trigger] tps_line(line)[k]).1 <= 100 * UNIT by {
                assert(tps_line(line)[k] == labelled(labels, values)[k]);
                assert(labelled(labels, values)[k].1 == values[k]);
            }
            assert(tps_from(lines, j) == tps_line(line));
        }
    }
}

/// Every rate a `/tps` report yields lies between 0 and 100: numbers outside
/// that range are never taken for tick rates.
pub proof fn lemma_tps_readings_are_rates(raw: Seq<char>)
    ensures
        forall|k: int|
            0 <= k < tps_from(lines_of(stripped(raw)), 0).len() ==> 0 <= (#[trigger] tps_from(
                lines_of(stripped(raw)),
                0,
            )[k]).1 <= 100 * UNIT,
{
    lemma_tps_lines_in_range(lines_of(stripped(raw)), 0);
}

} // verus!
