//! Turning numbers into something readable at a glance.
//!
//! Byte sizes are scaled the way a double would scale them: the count is first
//! rounded to the nearest double, then divided by 1024 per unit, then printed
//! with half-to-even rounding of the exact value. All of that is done here on
//! integers, exactly.

use vstd::prelude::*;

use crate::source::parse::pow10;
use crate::text::{decimal, digit_char, push_decimal, push_str, string_from};

verus! {

/// `2` raised to `e`.
pub open spec fn pow2(e: nat) -> nat
    decreases e,
{
    if e == 0 {
        1
    } else {
        2 * pow2((e - 1) as nat)
    }
}

/// How many binary digits `n` has.
pub open spec fn bit_length(n: nat) -> nat
    decreases n,
{
    if n == 0 {
        0
    } else {
        1 + bit_length(n / 2)
    }
}

/// How many low bits of `n` a double cannot keep: it holds 53 significant bits.
pub open spec fn dropped_bits(n: nat) -> nat {
    if bit_length(n) > 53 {
        (bit_length(n) - 53) as nat
    } else {
        0
    }
}

/// `a / d` rounded to the nearest integer, ties to the even one.
pub open spec fn round_half_even(a: nat, d: nat) -> nat {
    let q = a / d;
    let r = a % d;
    if 2 * r > d || (2 * r == d && q % 2 == 1) {
        q + 1
    } else {
        q
    }
}

/// The double nearest to `n`, ties to even: what `n as f64` holds.
pub open spec fn nearest_double(n: nat) -> nat {
    let p = pow2(dropped_bits(n));
    round_half_even(n, p) * p
}

/// Which binary unit a size of `m` bytes is shown in: the largest power of
/// 1024 it reaches, up to PiB.
pub open spec fn unit_for(m: nat) -> nat {
    if m >= pow2(50) {
        5
    } else if m >= pow2(40) {
        4
    } else if m >= pow2(30) {
        3
    } else if m >= pow2(20) {
        2
    } else if m >= pow2(10) {
        1
    } else {
        0
    }
}

pub open spec fn unit_name(unit: nat) -> Seq<char> {
    if unit == 0 {
        "B"@
    } else if unit == 1 {
        "KiB"@
    } else if unit == 2 {
        "MiB"@
    } else if unit == 3 {
        "GiB"@
    } else if unit == 4 {
        "TiB"@
    } else {
        "PiB"@
    }
}

/// The number shown for `m` bytes in `unit`: whole bytes as they are; in a
/// larger unit one decimal below 100 and none from 100 on.
pub open spec fn unit_number(m: nat, unit: nat) -> Seq<char> {
    let d = pow2(10 * unit);
    if unit == 0 {
        decimal(m)
    } else if m >= 100 * d {
        decimal(round_half_even(m, d))
    } else {
        let tenths = round_half_even(10 * m, d);
        decimal(tenths / 10) + seq!['.'] + decimal(tenths % 10)
    }
}

/// The number and unit shown for `value` bytes.
pub open spec fn byte_parts(value: nat) -> (Seq<char>, Seq<char>) {
    let m = nearest_double(value);
    (unit_number(m, unit_for(m)), unit_name(unit_for(m)))
}

proof fn lemma_pow2_table()
    ensures
        pow2(0) == 1,
        pow2(10) == 1024,
        pow2(11) == 2048,
        pow2(20) == 1048576,
        pow2(30) == 1073741824,
        pow2(40) == 1099511627776,
        pow2(50) == 1125899906842624,
        pow2(64) == 0x1_0000_0000_0000_0000,
{
    reveal_with_fuel(pow2, 65);
}

proof fn lemma_pow2_le(i: nat, j: nat)
    requires
        i <= j,
    ensures
        1 <= pow2(i) <= pow2(j),
    decreases j,
{
    if j > i {
        lemma_pow2_le(i, (j - 1) as nat);
    } else if j > 0 {
        lemma_pow2_le((j - 1) as nat, (j - 1) as nat);
    }
}

proof fn lemma_bit_length_below(n: nat, k: nat)
    requires
        n < pow2(k),
    ensures
        bit_length(n) <= k,
    decreases k,
{
    if n > 0 {
        assert(k > 0);
        lemma_bit_length_below(n / 2, (k - 1) as nat);
    }
}

fn round_half_even_u128(a: u128, d: u128) -> (r: u128)
    requires
        d > 0,
        a < u128::MAX,
    ensures
        r == round_half_even(a as nat, d as nat),
        r <= a + 1,
{
    let q = a / d;
    let r = a % d;
    assert(q <= a) by (nonlinear_arith)
        requires
            q == a / d,
            d > 0,
    ;
    if r > d - r || (r == d - r && q % 2 == 1) {
        q + 1
    } else {
        q
    }
}

/// `value as f64`, as the exact integer the double holds.
fn nearest_double_of(value: u64) -> (m: u128)
    ensures
        m == nearest_double(value as nat),
        m <= 0x800_0000_0000_0000_0000,
{
    proof {
        lemma_pow2_table();
        lemma_bit_length_below(value as nat, 64);
    }
    let mut rest = value;
    let mut length: u64 = 0;
    while rest > 0
        invariant
            length + bit_length(rest as nat) == bit_length(value as nat),
            bit_length(value as nat) <= 64,
        decreases rest,
    {
        rest = rest / 2;
        length = length + 1;
    }
    let dropped = if length > 53 { length - 53 } else { 0 };
    let mut p: u128 = 1;
    let mut i: u64 = 0;
    while i < dropped
        invariant
            i <= dropped <= 11,
            p == pow2(i as nat),
            pow2(11) == 2048,
        decreases dropped - i,
    {
        proof {
            lemma_pow2_le(i as nat, 11);
        }
        p = p * 2;
        i = i + 1;
    }
    proof {
        lemma_pow2_le(dropped as nat, 11);
    }
    let q = round_half_even_u128(value as u128, p);
    assert(q * p <= 0x800_0000_0000_0000_0000) by (nonlinear_arith)
        requires
            q <= value + 1,
            1 <= p <= 2048,
            value <= 0xffff_ffff_ffff_ffff,
    ;
    q * p
}

/// A byte size split into its number and its unit, for layouts that set the
/// two in different sizes or styles.
pub fn bytes_parts(value: u64) -> (r: (String, &'static str))
    ensures
        r.0@ == byte_parts(value as nat).0,
        r.1@ == byte_parts(value as nat).1,
{
    let m = nearest_double_of(value);
    proof {
        lemma_pow2_table();
    }
    let (unit, size, name): (u64, u128, &'static str) = if m >= 1125899906842624 {
        (5, 1125899906842624, "PiB")
    } else if m >= 1099511627776 {
        (4, 1099511627776, "TiB")
    } else if m >= 1073741824 {
        (3, 1073741824, "GiB")
    } else if m >= 1048576 {
        (2, 1048576, "MiB")
    } else if m >= 1024 {
        (1, 1024, "KiB")
    } else {
        (0, 1, "B")
    };
    let mut out: Vec<char> = Vec::new();
    if unit == 0 {
        push_decimal(&mut out, m);
    } else if m >= 100 * size {
        let whole = round_half_even_u128(m, size);
        push_decimal(&mut out, whole);
    } else {
        let tenths = round_half_even_u128(10 * m, size);
        push_decimal(&mut out, tenths / 10);
        out.push('.');
        push_decimal(&mut out, tenths % 10);
        proof {
            assert(out@ =~= decimal((tenths / 10) as nat) + seq!['.'] + decimal((tenths % 10) as nat));
        }
    }
    (string_from(&out), name)
}

/// The text of a byte size: number, space, unit.
pub open spec fn bytes_text(value: nat) -> Seq<char> {
    byte_parts(value).0 + seq![' '] + byte_parts(value).1
}

/// Binary byte sizes: `4.2 GiB`.
pub fn bytes(value: u64) -> (r: String)
    ensures
        r@ == bytes_text(value as nat),
{
    let (number, unit) = bytes_parts(value);
    let mut out: Vec<char> = Vec::new();
    push_str(&mut out, number.as_str());
    out.push(' ');
    push_str(&mut out, unit);
    proof {
        assert(out@ =~= bytes_text(value as nat));
    }
    string_from(&out)
}

/// The compact text of a duration of `millis` milliseconds: the two largest
/// units from a minute up, whole seconds from a second, milliseconds below.
pub open spec fn duration_text(millis: nat) -> Seq<char> {
    let total = millis / 1000;
    let days = total / 86_400;
    let hours = (total % 86_400) / 3_600;
    let minutes = (total % 3_600) / 60;
    let seconds = total % 60;
    if days > 0 {
        decimal(days) + "d "@ + decimal(hours) + "h"@
    } else if hours > 0 {
        decimal(hours) + "h "@ + decimal(minutes) + "m"@
    } else if minutes > 0 {
        decimal(minutes) + "m "@ + decimal(seconds) + "s"@
    } else if total > 0 {
        decimal(seconds) + "s"@
    } else {
        decimal(millis) + "ms"@
    }
}

/// Compact durations: `3d 4h`, `12m 30s`, `450ms`. The duration is given in
/// whole milliseconds.
pub fn duration(millis: u128) -> (r: String)
    ensures
        r@ == duration_text(millis as nat),
{
    let total = millis / 1000;
    let days = total / 86_400;
    let hours = (total % 86_400) / 3_600;
    let minutes = (total % 3_600) / 60;
    let seconds = total % 60;
    let mut out: Vec<char> = Vec::new();
    if days > 0 {
        push_decimal(&mut out, days);
        push_str(&mut out, "d ");
        push_decimal(&mut out, hours);
        push_str(&mut out, "h");
    } else if hours > 0 {
        push_decimal(&mut out, hours);
        push_str(&mut out, "h ");
        push_decimal(&mut out, minutes);
        push_str(&mut out, "m");
    } else if minutes > 0 {
        push_decimal(&mut out, minutes);
        push_str(&mut out, "m ");
        push_decimal(&mut out, seconds);
        push_str(&mut out, "s");
    } else if total > 0 {
        push_decimal(&mut out, seconds);
        push_str(&mut out, "s");
    } else {
        push_decimal(&mut out, millis);
        push_str(&mut out, "ms");
    }
    proof {
        assert(out@ =~= duration_text(millis as nat));
    }
    string_from(&out)
}

/// How long ago something happened, `millis` milliseconds back: `just now`
/// for under three seconds, else the whole seconds as [`duration`] writes them.
pub open spec fn ago_text(millis: nat) -> Seq<char> {
    let seconds = millis / 1000;
    if seconds <= 2 {
        "just now"@
    } else {
        duration_text(seconds * 1000) + " ago"@
    }
}

/// How long ago something happened: `just now`, `12s ago`, `4m 0s ago`.
pub fn ago(millis: u128) -> (r: String)
    ensures
        r@ == ago_text(millis as nat),
{
    let seconds = millis / 1000;
    if seconds <= 2 {
        return "just now".to_owned();
    }
    let text = duration(seconds * 1000);
    let mut out: Vec<char> = Vec::new();
    push_str(&mut out, text.as_str());
    push_str(&mut out, " ago");
    string_from(&out)
}

/// The narrow no-break space that separates groups of digits.
pub const GROUP_SEPARATOR: char = '\u{202f}';

/// `digits` in groups of three from the right, the groups set apart by
/// [`GROUP_SEPARATOR`].
pub open spec fn grouped(digits: Seq<char>) -> Seq<char>
    decreases digits.len(),
{
    if digits.len() <= 3 {
        digits
    } else {
        grouped(digits.take(digits.len() - 3)) + seq![GROUP_SEPARATOR] + digits.skip(digits.len() - 3)
    }
}

fn group_prefix(digits: &Vec<char>, end: usize) -> (r: Vec<char>)
    requires
        end <= digits@.len(),
    ensures
        r@ == grouped(digits@.take(end as int)),
    decreases end,
{
    let mut out: Vec<char>;
    let from: usize;
    if end <= 3 {
        out = Vec::new();
        from = 0;
    } else {
        out = group_prefix(digits, end - 3);
        out.push(GROUP_SEPARATOR);
        from = end - 3;
        proof {
            assert(digits@.take(end as int).take(end - 3) =~= digits@.take(end - 3));
        }
    }
    let ghost start = out@;
    let mut i = from;
    while i < end
        invariant
            from <= i <= end <= digits@.len(),
            out@ == start + digits@.subrange(from as int, i as int),
        decreases end - i,
    {
        out.push(digits[i]);
        i += 1;
        proof {
            assert(digits@.subrange(from as int, i as int) =~= digits@.subrange(from as int, i - 1).push(digits@[i - 1]));
        }
    }
    proof {
        if end <= 3 {
            assert(out@ =~= digits@.take(end as int));
        } else {
            assert(digits@.take(end as int).skip(end - 3) =~= digits@.subrange(from as int, end as int));
        }
    }
    out
}

/// A large count with thousands separators: `1 284 302`.
pub fn count(value: u64) -> (r: String)
    ensures
        r@ == grouped(decimal(value as nat)),
{
    let mut digits: Vec<char> = Vec::new();
    push_decimal(&mut digits, value as u128);
    assert(digits@ =~= decimal(value as nat));
    let out = group_prefix(&digits, digits.len());
    assert(digits@.take(digits@.len() as int) =~= digits@);
    string_from(&out)
}

/// A value that may be missing, rendered with an em dash when it is.
pub fn optional<T, F: FnOnce(T) -> String>(value: Option<T>, render: F) -> (r: String)
    requires
        value matches Some(v) ==> render.requires((v,)),
    ensures
        value matches None ==> r@ == "\u{2014}"@,
        value matches Some(v) ==> render.ensures((v,), r),
{
    match value {
        Some(v) => render(v),
        None => "\u{2014}".to_owned(),
    }
}

/// The bits that a product with numerator `n` drops to fit a double's 53-bit
/// significand: the least `j`, from `from` on, with `n < 2^(53 + j)`; seven
/// at most, which is all a hundredfold significand needs.
pub open spec fn product_shift(n: nat, from: nat) -> nat
    decreases 7 - from,
{
    if from >= 7 || n < pow2(53 + from) {
        from
    } else {
        product_shift(n, from + 1)
    }
}

/// What `d * 100.0` holds for the double `d` nearest to `a` millionths, as a
/// numerator over `2^significand_scale(a, 0)`: the double is `m / 2^k`, and
/// the product `100 m / 2^k` is rounded to 53 significant bits, ties to even.
pub open spec fn hundredfold(a: nat) -> nat {
    let k = significand_scale(a, 0);
    let m = round_half_even(a * pow2(k), 1_000_000);
    let j = product_shift(100 * m, 0);
    round_half_even(100 * m, pow2(j)) * pow2(j)
}

/// How many `1 / scale` steps `{:.N}` writes for the double `d * 100.0`, `d`
/// the double nearest to `a` millionths: the nearest count, ties to even.
pub open spec fn hundredfold_steps(a: nat, scale: nat) -> nat {
    round_half_even(scale * hundredfold(a), pow2(significand_scale(a, 0)))
}

/// The text of a fraction of `fraction` millionths as a percentage, as the
/// double nearest to the fraction, times a hundred, is written: no decimals
/// from 100% on, one below. The product reaches a hundred exactly when the
/// fraction reaches one.
pub open spec fn percent_text(fraction: int) -> Seq<char> {
    if fraction >= 1_000_000 {
        decimal(hundredfold_steps(fraction as nat, 1)) + seq!['%']
    } else {
        let magnitude = if fraction < 0 { -fraction } else { fraction };
        let tenths = hundredfold_steps(magnitude as nat, 10);
        (if fraction < 0 { seq!['-'] } else { Seq::<char>::empty() }) + decimal(tenths / 10) + seq!['.'] + decimal(
            tenths % 10,
        ) + seq!['%']
    }
}

/// `2^product_shift(n, 0)`, for a hundredfold significand.
fn shift_unit(n: u128) -> (unit: u128)
    requires
        n <= 900_719_925_474_099_200,
    ensures
        unit == pow2(product_shift(n as nat, 0)),
        1 <= unit <= 128,
{
    let mut j: u32 = 0;
    let mut unit: u128 = 1;
    let mut limit: u128 = 9_007_199_254_740_992;
    proof {
        assert(pow2(53) == 9_007_199_254_740_992) by {
            reveal_with_fuel(pow2, 54);
        }
        assert(pow2(60) == 1_152_921_504_606_846_976) by {
            reveal_with_fuel(pow2, 61);
        }
        assert(pow2(7) == 128) by {
            reveal_with_fuel(pow2, 8);
        }
        reveal_with_fuel(pow2, 1);
    }
    while j < 7 && n >= limit
        invariant
            j <= 7,
            unit == pow2(j as nat),
            limit == pow2((53 + j) as nat),
            1 <= unit <= 128,
            limit <= 1_152_921_504_606_846_976,
            pow2(60) == 1_152_921_504_606_846_976,
            pow2(7) == 128,
            product_shift(n as nat, 0) == product_shift(n as nat, j as nat),
        decreases 7 - j,
    {
        proof {
            lemma_pow2_step(j as nat);
            lemma_pow2_step((53 + j) as nat);
            lemma_pow2_grows((53 + j + 1) as nat, 60);
            lemma_pow2_grows((j + 1) as nat, 7);
        }
        unit = unit * 2;
        limit = limit * 2;
        j += 1;
    }
    assert(product_shift(n as nat, j as nat) == j);
    unit
}

/// [`hundredfold_steps`], for a magnitude that an `i64` can hold.
fn steps_of_hundredfold(a: u128, scale: u128) -> (r: u128)
    requires
        a <= 9_223_372_036_854_775_808,
        1 <= scale <= 10,
    ensures
        r == hundredfold_steps(a as nat, scale as nat),
{
    let (m, k, p) = reading_significand(a);
    let n: u128 = 100 * m;
    let unit = shift_unit(n);
    let rounded = round_half_even_u128(n, unit);
    assert(rounded * unit <= 115_292_150_460_684_697_728) by (nonlinear_arith)
        requires
            rounded <= n + 1,
            n <= 900_719_925_474_099_200,
            1 <= unit <= 128,
    ;
    let numerator = rounded * unit;
    assert(hundredfold(a as nat) == numerator);
    assert(scale * numerator <= 1_152_921_504_606_846_977_280) by (nonlinear_arith)
        requires
            scale <= 10,
            numerator <= 115_292_150_460_684_697_728,
    ;
    round_half_even_u128(scale * numerator, p)
}

/// A fraction as a percentage: `6.4%`. The fraction is given in millionths.
pub fn percent(fraction: i64) -> (r: String)
    ensures
        r@ == percent_text(fraction as int),
{
    let mut out: Vec<char> = Vec::new();
    if fraction >= 1_000_000 {
        let whole = steps_of_hundredfold(fraction as u128, 1);
        push_decimal(&mut out, whole);
        out.push('%');
        proof {
            assert(out@ =~= percent_text(fraction as int));
        }
    } else {
        let magnitude: u128 = if fraction < 0 { (-(fraction as i128)) as u128 } else { fraction as u128 };
        let tenths = steps_of_hundredfold(magnitude, 10);
        if fraction < 0 {
            out.push('-');
        }
        let ghost sign = out@;
        push_decimal(&mut out, tenths / 10);
        out.push('.');
        push_decimal(&mut out, tenths % 10);
        out.push('%');
        proof {
            assert(sign =~= (if fraction < 0 { seq!['-'] } else { Seq::<char>::empty() }));
            assert(out@ =~= sign + decimal((tenths / 10) as nat) + seq!['.'] + decimal((tenths % 10) as nat)
                + seq!['%']);
            assert(out@ =~= percent_text(fraction as int));
        }
    }
    string_from(&out)
}

/// Whole seconds in `millis` milliseconds, rounded half away from zero, and
/// none for a negative span.
pub open spec fn span_seconds(millis: int) -> nat {
    if millis <= 0 {
        0
    } else {
        ((millis + 500) / 1000) as nat
    }
}

/// The label of a span of `millis` milliseconds rounded to one unit: seconds
/// up to 90 of them, minutes up to 90 of those, hours beyond; each rounded
/// half away from zero.
pub open spec fn span_text(millis: int) -> Seq<char> {
    let seconds = span_seconds(millis);
    if seconds <= 90 {
        decimal(seconds) + "s"@
    } else if seconds <= 5_400 {
        decimal((seconds + 30) / 60) + "m"@
    } else {
        decimal((seconds + 1_800) / 3_600) + "h"@
    }
}

/// A duration rounded to one unit, for axis labels: `3m`, `2h`, `45s`. The
/// span is given in milliseconds.
pub fn span(millis: i64) -> (r: String)
    ensures
        r@ == span_text(millis as int),
{
    let seconds: u64 = if millis <= 0 { 0 } else { ((millis as u64) + 500) / 1000 };
    let mut out: Vec<char> = Vec::new();
    if seconds <= 90 {
        push_decimal(&mut out, seconds as u128);
        push_str(&mut out, "s");
    } else if seconds <= 5_400 {
        push_decimal(&mut out, ((seconds + 30) / 60) as u128);
        push_str(&mut out, "m");
    } else {
        push_decimal(&mut out, ((seconds + 1_800) / 3_600) as u128);
        push_str(&mut out, "h");
    }
    string_from(&out)
}

/// The last `k` decimal digits of `n`, with leading zeros.
pub open spec fn digits_of(n: nat, k: nat) -> Seq<char>
    decreases k,
{
    if k == 0 {
        Seq::empty()
    } else {
        digits_of(n / 10, (k - 1) as nat).push(digit_char((n % 10) as int))
    }
}

/// The binary scale that brings `a` millionths into the range of a double's
/// 53-bit significand: the least `k`, from `from` on, at which `a * 2^k` is at
/// least `2^52` millions; eighty at most, which only nothing needs.
pub open spec fn significand_scale(a: nat, from: nat) -> nat
    decreases 80 - from,
{
    if from >= 80 || a * pow2(from) >= pow2(52) * 1_000_000 {
        from
    } else {
        significand_scale(a, from + 1)
    }
}

/// Which side of the point halfway between `q` and `q + 1` steps of `step`
/// millionths the double nearest to `a` millionths lies on: one above, minus
/// one below, zero on it.
pub open spec fn side_of_midpoint(a: nat, q: nat, step: nat) -> int {
    let k = significand_scale(a, 0);
    let m = round_half_even(a * pow2(k), 1_000_000);
    let nearest = m * 2_000_000;
    let midpoint = (2 * q + 1) * step * pow2(k);
    if nearest > midpoint {
        1
    } else if nearest < midpoint {
        -1
    } else {
        0
    }
}

/// `a` millionths in steps of `10^-places`, rounded the way a double holding
/// the reading is: by where the double falls against the halfway point, and
/// to the even step when it falls exactly on it.
pub open spec fn rounded_steps(a: nat, places: nat) -> nat {
    let step = pow10((6 - places) as nat);
    let q = a / step;
    let side = side_of_midpoint(a, q, step);
    if side > 0 || (side == 0 && q % 2 == 1) {
        q + 1
    } else {
        q
    }
}

/// A reading of `value` millionths with `places` decimals, as `{:.N}` writes
/// the double nearest to it: the value that parsing the reading's decimal
/// text gives.
pub open spec fn fixed_text(value: int, places: nat) -> Seq<char> {
    let magnitude = if value < 0 { -value } else { value };
    let scale = pow10(places);
    let h = rounded_steps(magnitude as nat, places);
    (if value < 0 { seq!['-'] } else { Seq::<char>::empty() }) + decimal(h / scale) + (if places == 0 {
        Seq::<char>::empty()
    } else {
        seq!['.'] + digits_of(h % scale, places)
    })
}

proof fn lemma_pow2_step(k: nat)
    ensures
        pow2(k + 1) == 2 * pow2(k),
{
    reveal_with_fuel(pow2, 2);
}

proof fn lemma_pow2_grows(a: nat, b: nat)
    requires
        a <= b,
    ensures
        pow2(a) <= pow2(b),
        pow2(a) >= 1,
    decreases b - a,
{
    if a < b {
        lemma_pow2_grows(a, (b - 1) as nat);
        lemma_pow2_step((b - 1) as nat);
    } else {
        lemma_pow2_positive(a);
    }
}

proof fn lemma_pow2_positive(k: nat)
    ensures
        pow2(k) >= 1,
    decreases k,
{
    if k > 0 {
        lemma_pow2_positive((k - 1) as nat);
    }
}

/// The double nearest to `a` millionths, for `a` that an `i64` can hold: its
/// significand `m`, the power `k` of two it is divided by, and `2^k`.
fn reading_significand(a: u128) -> (r: (u128, u32, u128))
    requires
        a <= 9_223_372_036_854_775_808,
    ensures
        r.1 == significand_scale(a as nat, 0),
        r.2 == pow2(r.1 as nat),
        1 <= r.2 <= 1_208_925_819_614_629_174_706_176,
        r.0 == round_half_even(a as nat * pow2(r.1 as nat), 1_000_000),
        r.0 <= 9_007_199_254_740_992,
{
    proof {
        assert(pow2(52) == 4_503_599_627_370_496) by {
            reveal_with_fuel(pow2, 53);
        }
        assert(pow2(80) == 1_208_925_819_614_629_174_706_176) by {
            reveal_with_fuel(pow2, 81);
        }
    }
    let limit: u128 = 4_503_599_627_370_496_000_000;
    let mut k: u32 = 0;
    let mut s: u128 = a;
    let mut p: u128 = 1;
    while k < 80 && s < limit
        invariant
            k <= 80,
            p == pow2(k as nat),
            1 <= p <= 1_208_925_819_614_629_174_706_176,
            s == a * p,
            s <= 2 * limit,
            significand_scale(a as nat, 0) == significand_scale(a as nat, k as nat),
            limit == 4_503_599_627_370_496_000_000,
            pow2(52) == 4_503_599_627_370_496,
            pow2(80) == 1_208_925_819_614_629_174_706_176,
        decreases 80 - k,
    {
        proof {
            lemma_pow2_step(k as nat);
            lemma_pow2_grows((k + 1) as nat, 80);
        }
        s = s * 2;
        p = p * 2;
        k += 1;
        assert(s == a * p) by (nonlinear_arith)
            requires
                s == 2 * (a * (p / 2)),
                p % 2 == 0,
        {
        }
    }
    assert(significand_scale(a as nat, k as nat) == k);
    let m = round_half_even_u128(s, 1_000_000);
    proof {
        lemma_round_bounded(s as nat, 1_000_000, 9_007_199_254_740_992);
    }
    (m, k, p)
}

/// Rounding never passes a bound that the quotient stays within.
proof fn lemma_round_bounded(x: nat, d: nat, b: nat)
    requires
        d > 0,
        x <= b * d,
    ensures
        round_half_even(x, d) <= b,
{
    let q = x / d;
    let r = x % d;
    assert(x == q * d + r && 0 <= r < d) by {
        vstd::arithmetic::div_mod::lemma_fundamental_div_mod(x as int, d as int);
    }
    assert(q <= b) by (nonlinear_arith)
        requires
            x == q * d + r,
            0 <= r,
            x <= b * d,
            d > 0,
    ;
    if q == b {
        assert(r == 0) by (nonlinear_arith)
            requires
                x == q * d + r,
                q == b,
                x <= b * d,
                0 <= r,
        ;
    }
}

/// [`rounded_steps`], for a magnitude that an `i64` can hold.
fn steps_rounded(a: u128, places: u32) -> (h: u128)
    requires
        places <= 2,
        a <= 9_223_372_036_854_775_808,
    ensures
        h == rounded_steps(a as nat, places as nat),
{
    let step = power_of_ten(6 - places);
    let q = a / step;
    proof {
        assert(step <= 1_000_000) by {
            lemma_pow10_grows((6 - places) as nat, 6);
            reveal_with_fuel(pow10, 7);
        }
    }
    let (m, k, p) = reading_significand(a);
    let s: u128 = a * p;
    assert(q * step <= a) by (nonlinear_arith)
        requires
            q == a / step,
            step >= 1,
    ;
    let low = q * step;
    let span = 2 * low + step;
    proof {
        assert(span * p <= 2 * s + step * p) by (nonlinear_arith)
            requires
                span == 2 * low + step,
                low <= a,
                s == a * p,
                p >= 1,
        ;
        assert(step * p <= 1_000_000 * 1_208_925_819_614_629_174_706_176) by (nonlinear_arith)
            requires
                step <= 1_000_000,
                p <= 1_208_925_819_614_629_174_706_176,
        ;
    }
    let nearest = m * 2_000_000;
    let midpoint = span * p;
    proof {
        assert(midpoint == (2 * q + 1) * step * pow2(k as nat)) by (nonlinear_arith)
            requires
                midpoint == span * p,
                span == 2 * low + step,
                low == q * step,
                p == pow2(k as nat),
        ;
    }
    let side: i8 = if nearest > midpoint {
        1
    } else if nearest < midpoint {
        -1
    } else {
        0
    };
    if side > 0 || (side == 0 && q % 2 == 1) {
        q + 1
    } else {
        q
    }
}

fn power_of_ten(n: u32) -> (r: u128)
    requires
        n <= 6,
    ensures
        r == pow10(n as nat),
        r >= 1,
{
    let mut r: u128 = 1;
    let mut i: u32 = 0;
    while i < n
        invariant
            i <= n <= 6,
            r == pow10(i as nat),
            1 <= r <= 1_000_000,
        decreases n - i,
    {
        proof {
            reveal_with_fuel(pow10, 7);
            assert(pow10((i + 1) as nat) == 10 * pow10(i as nat));
            assert(i < 6);
            assert(r <= pow10(5)) by {
                lemma_pow10_grows(i as nat, 5);
            }
        }
        r = r * 10;
        i += 1;
    }
    r
}

proof fn lemma_pow10_grows(a: nat, b: nat)
    requires
        a <= b,
    ensures
        pow10(a) <= pow10(b),
    decreases b - a,
{
    if a < b {
        lemma_pow10_grows(a, (b - 1) as nat);
    }
}

fn push_digits(out: &mut Vec<char>, n: u128, k: u32)
    ensures
        final(out)@ == old(out)@ + digits_of(n as nat, k as nat),
    decreases k,
{
    if k > 0 {
        push_digits(out, n / 10, k - 1);
        out.push(((n % 10) as u8 + 48) as char);
    }
}

/// A reading with `places` decimals, `places` at most two: `19.98`. The
/// reading is given in millionths.
pub fn fixed(value: i64, places: u32) -> (r: String)
    requires
        places <= 2,
    ensures
        r@ == fixed_text(value as int, places as nat),
{
    let magnitude: u128 = if value < 0 { (-(value as i128)) as u128 } else { value as u128 };
    let scale = power_of_ten(places);
    let h = steps_rounded(magnitude, places);
    let mut out: Vec<char> = Vec::new();
    if value < 0 {
        out.push('-');
    }
    let ghost sign = out@;
    push_decimal(&mut out, h / scale);
    let ghost whole = out@;
    if places > 0 {
        out.push('.');
        push_digits(&mut out, h % scale, places);
    }
    proof {
        assert(sign =~= (if value < 0 { seq!['-'] } else { Seq::<char>::empty() }));
        assert(out@ =~= fixed_text(value as int, places as nat));
    }
    string_from(&out)
}

} // verus!
