//! A figure in a JDK tool's output, read the way `str::parse::<f64>` reads
//! it: an optional sign, digits with an optional point, and an optional
//! exponent. The reading is kept in millionths, cut toward zero; a figure too
//! large for a double, which parses to infinity, reads as none at all.

use vstd::prelude::*;

use crate::format::pow2;
use crate::server::{digits_value, is_digit};
use crate::source::grammar::find_char;
use crate::source::parse::{all_digits, clamp_i64, pow10};

verus! {

/// The index of the first exponent mark, `e` or `E`, in `s` from `i` on;
/// the length of `s` when there is none.
pub open spec fn exponent_mark(s: Seq<char>, i: int) -> int
    decreases s.len() - i,
{
    if 0 <= i < s.len() && s[i] != 'e' && s[i] != 'E' {
        exponent_mark(s, i + 1)
    } else {
        i
    }
}

/// The value of an exponent written as an optional sign and one or more
/// ASCII digits.
pub open spec fn exponent_of(e: Seq<char>) -> Option<int> {
    let signed = e.len() > 0 && (e[0] == '+' || e[0] == '-');
    let digits = if signed { e.drop_first() } else { e };
    if digits.len() > 0 && all_digits(digits) {
        Some(if e[0] == '-' { -(digits_value(digits) as int) } else { digits_value(digits) as int })
    } else {
        None
    }
}

/// A figure's parts, when it is written as a double parse reads a finite
/// number: whether it is negative, its digits before and after the point, and
/// its exponent. There must be a digit on one side of the point.
pub open spec fn written(t: Seq<char>) -> Option<(bool, Seq<char>, Seq<char>, int)> {
    let negative = t.len() > 0 && t[0] == '-';
    let signed = t.len() > 0 && (t[0] == '+' || t[0] == '-');
    let body = if signed { t.drop_first() } else { t };
    let mark = exponent_mark(body, 0);
    let mantissa = body.take(mark);
    let exponent = if mark < body.len() { exponent_of(body.skip(mark + 1)) } else { Some(0int) };
    let whole = whole_part(mantissa);
    let fraction = fraction_part(mantissa);
    match exponent {
        Some(x) => if all_digits(whole) && all_digits(fraction) && whole.len() + fraction.len() > 0 {
            Some((negative, whole, fraction, x))
        } else {
            None
        },
        None => None,
    }
}

/// The digits of a mantissa before its point.
pub open spec fn whole_part(mantissa: Seq<char>) -> Seq<char> {
    mantissa.take(find_char(mantissa, 0, '.'))
}

/// The digits of a mantissa after its point; none without a point.
pub open spec fn fraction_part(mantissa: Seq<char>) -> Seq<char> {
    let dot = find_char(mantissa, 0, '.');
    if dot < mantissa.len() { mantissa.skip(dot + 1) } else { Seq::<char>::empty() }
}

/// The least value a double parse turns into infinity: halfway between the
/// largest finite double and `2^1024`.
pub open spec fn overflow() -> nat {
    (pow2(1024) - pow2(970)) as nat
}

/// Whether `d * 10^e` is at least [`overflow`].
pub open spec fn beyond(d: nat, e: int) -> bool {
    if e >= 0 {
        d * pow10(e as nat) >= overflow()
    } else {
        d >= overflow() * pow10((-e) as nat)
    }
}

/// `d * 10^e` in millionths, cut toward zero.
pub open spec fn micros(d: nat, e: int) -> nat {
    if e + 6 >= 0 {
        d * pow10((e + 6) as nat)
    } else {
        d / pow10((-(e + 6)) as nat)
    }
}

/// What `d * 10^e`, negated when `negative`, reads as in millionths: `None`
/// when a double parse turns it into infinity.
pub open spec fn reading_of(negative: bool, d: nat, e: int) -> Option<i64> {
    if beyond(d, e) {
        None
    } else {
        Some(clamp_i64(if negative { -(micros(d, e) as int) } else { micros(d, e) as int }))
    }
}

/// What a figure reads as, in millionths: `None` for text a double parse
/// refuses, and for a figure it turns into infinity.
pub open spec fn figure_value(t: Seq<char>) -> Option<i64> {
    match written(t) {
        Some((negative, whole, fraction, x)) => reading_of(
            negative,
            digits_value(whole + fraction),
            x - fraction.len(),
        ),
        None => None,
    }
}

/// The first `m` digits of `s`, made up with zeros, behind zeros that bring
/// them to `n` places.
pub open spec fn aligned(s: Seq<char>, m: nat, n: nat) -> Seq<char> {
    Seq::new(n, |i: int| if i < n - m { '0' } else { padded(s, m)[i - (n - m)] })
}

/// The first `k` digits of `s`, made up with zeros past its end.
pub open spec fn padded(s: Seq<char>, k: nat) -> Seq<char> {
    Seq::new(k, |i: int| if i < s.len() { s[i] } else { '0' })
}

pub proof fn lemma_pow10_add(a: nat, b: nat)
    ensures
        pow10(a + b) == pow10(a) * pow10(b),
    decreases b,
{
    if b > 0 {
        let b1 = (b - 1) as nat;
        lemma_pow10_add(a, b1);
        assert(a + b1 + 1 == a + b);
        assert(pow10(a + b) == 10 * pow10(a + b1));
        assert(pow10(b) == 10 * pow10(b1));
        assert(10 * (pow10(a) * pow10(b1)) == pow10(a) * (10 * pow10(b1))) by (nonlinear_arith);
    } else {
        assert(pow10(0) == 1);
        assert(a + b == a);
    }
}

pub proof fn lemma_pow10_positive(a: nat)
    ensures
        pow10(a) >= 1,
    decreases a,
{
    if a > 0 {
        lemma_pow10_positive((a - 1) as nat);
    }
}

pub proof fn lemma_pow10_grows(a: nat, b: nat)
    requires
        a <= b,
    ensures
        pow10(a) <= pow10(b),
{
    lemma_pow10_add(a, (b - a) as nat);
    lemma_pow10_positive((b - a) as nat);
    lemma_pow10_positive(a);
    assert(pow10(a) * 1 <= pow10(a) * pow10((b - a) as nat)) by (nonlinear_arith)
        requires
            pow10((b - a) as nat) >= 1,
    ;
}

/// Digits are worth less than the next power of ten.
pub proof fn lemma_digits_below(s: Seq<char>)
    requires
        all_digits(s),
    ensures
        digits_value(s) < pow10(s.len()),
    decreases s.len(),
{
    if s.len() > 0 {
        assert(all_digits(s.drop_last())) by {
            assert forall|j: int| 0 <= j < s.drop_last().len() implies is_digit(#[trigger] s.drop_last()[j]) by {
                assert(s.drop_last()[j] == s[j]);
            }
        }
        lemma_digits_below(s.drop_last());
        assert(is_digit(s[s.len() - 1]));
        let last = ((s.last() as u32) - 48) as nat;
        assert(last <= 9);
        assert(pow10(s.len()) == 10 * pow10((s.len() - 1) as nat));
    }
}

/// The value of digits split at `i`: the front scaled past the back.
pub proof fn lemma_digits_split(s: Seq<char>, i: int)
    requires
        0 <= i <= s.len(),
    ensures
        digits_value(s) == digits_value(s.take(i)) * pow10((s.len() - i) as nat) + digits_value(s.skip(i)),
    decreases s.len(),
{
    if i == s.len() {
        assert(s.take(i) =~= s);
        assert(s.skip(i) =~= Seq::<char>::empty());
        assert(digits_value(s.skip(i)) == 0);
        assert((s.len() - i) as nat == 0);
        assert(pow10(0) == 1);
        assert(digits_value(s.take(i)) * 1 == digits_value(s));
    } else {
        let front = s.drop_last();
        lemma_digits_split(front, i);
        assert(front.take(i) =~= s.take(i));
        let back = s.skip(i);
        assert(back.len() > 0);
        assert(back.drop_last() =~= front.skip(i));
        assert(back.last() == s.last());
        let a = digits_value(s.take(i));
        let n1 = (front.len() - i) as nat;
        let p = pow10(n1);
        let b = digits_value(front.skip(i));
        let c = ((s.last() as u32) - 48) as nat;
        assert(digits_value(s) == digits_value(front) * 10 + c);
        assert(digits_value(back) == digits_value(back.drop_last()) * 10 + ((back.last() as u32) - 48) as nat);
        assert(digits_value(back) == b * 10 + c);
        assert(digits_value(front) == a * p + b);
        assert((s.len() - i) as nat == n1 + 1);
        assert(pow10((s.len() - i) as nat) == 10 * p);
        assert((a * p + b) * 10 + c == a * (10 * p) + (b * 10 + c)) by (nonlinear_arith);
        assert(digits_value(s) == a * pow10((s.len() - i) as nat) + digits_value(back));
    }
}

/// Leading zeros add nothing.
pub proof fn lemma_leading_zeros(s: Seq<char>, z: int)
    requires
        0 <= z <= s.len(),
        forall|j: int| 0 <= j < z ==> s[j] == '0',
    ensures
        digits_value(s) == digits_value(s.skip(z)),
{
    assert forall|j: int| 0 <= j < s.take(z).len() implies #[trigger] s.take(z)[j] == '0' by {
        assert(s.take(z)[j] == s[j]);
    }
    lemma_zeros_worthless(s.take(z));
    lemma_digits_split(s, z);
    assert(0 * pow10((s.len() - z) as nat) == 0);
}

proof fn lemma_zeros_worthless(s: Seq<char>)
    requires
        forall|j: int| 0 <= j < s.len() ==> s[j] == '0',
    ensures
        digits_value(s) == 0,
    decreases s.len(),
{
    if s.len() > 0 {
        lemma_zeros_worthless(s.drop_last());
    }
}

/// Digits led by a nonzero one are worth at least a power of ten.
pub proof fn lemma_digits_at_least(s: Seq<char>)
    requires
        s.len() > 0,
        all_digits(s),
        s[0] != '0',
    ensures
        digits_value(s) >= pow10((s.len() - 1) as nat),
{
    lemma_digits_split(s, 1);
    assert(s.take(1).drop_last() =~= Seq::<char>::empty());
    assert(is_digit(s[0]));
    assert(digits_value(s.take(1)) >= 1);
    lemma_pow10_positive((s.len() - 1) as nat);
    assert(digits_value(s.take(1)) * pow10((s.len() - 1) as nat) >= pow10((s.len() - 1) as nat)) by (nonlinear_arith)
        requires
            digits_value(s.take(1)) >= 1,
    ;
}

/// The first `k` digits, made up with zeros, are the value scaled by
/// `10^(k - len)` and cut toward zero.
pub proof fn lemma_padded(s: Seq<char>, k: nat)
    requires
        all_digits(s),
    ensures
        digits_value(padded(s, k)) == if k >= s.len() {
            digits_value(s) * pow10((k - s.len()) as nat)
        } else {
            digits_value(s) / pow10((s.len() - k) as nat)
        },
    decreases k,
{
    if k <= s.len() {
        assert(padded(s, k) =~= s.take(k as int));
        lemma_digits_split(s, k as int);
        let a = digits_value(s.take(k as int));
        let p = pow10((s.len() - k) as nat);
        let b = digits_value(s.skip(k as int));
        assert(all_digits(s.skip(k as int))) by {
            assert forall|j: int| 0 <= j < s.skip(k as int).len() implies is_digit(#[trigger] s.skip(k as int)[j]) by {
                assert(s.skip(k as int)[j] == s[j + k]);
            }
        }
        lemma_digits_below(s.skip(k as int));
        assert(s.skip(k as int).len() == s.len() - k);
        lemma_pow10_positive((s.len() - k) as nat);
        assert(digits_value(s) == a * p + b);
        assert(b < p);
        vstd::arithmetic::div_mod::lemma_fundamental_div_mod_converse(
            digits_value(s) as int, p as int, a as int, b as int);
        assert(digits_value(s) / p == a);
        if k == s.len() {
            assert(pow10(0) == 1);
            assert(digits_value(s) * 1 == digits_value(s));
            assert(s.take(k as int) =~= s);
        }
    } else {
        let k1 = (k - 1) as nat;
        lemma_padded(s, k1);
        assert(padded(s, k).drop_last() =~= padded(s, k1));
        assert(padded(s, k).last() == '0');
        assert(digits_value(padded(s, k)) == digits_value(padded(s, k1)) * 10);
        let q = (k1 - s.len()) as nat;
        assert((k - s.len()) as nat == q + 1);
        assert(pow10(q + 1) == 10 * pow10(q));
        assert(digits_value(padded(s, k1)) == digits_value(s) * pow10(q));
        assert(digits_value(s) * pow10(q) * 10 == digits_value(s) * (10 * pow10(q))) by (nonlinear_arith);
    }
}

proof fn lemma_pow2_add(a: nat, b: nat)
    ensures
        pow2(a + b) == pow2(a) * pow2(b),
    decreases b,
{
    if b > 0 {
        let b1 = (b - 1) as nat;
        lemma_pow2_add(a, b1);
        assert(a + b1 + 1 == a + b);
        assert(pow2(a + b) == 2 * pow2(a + b1));
        assert(pow2(b) == 2 * pow2(b1));
        assert(2 * (pow2(a) * pow2(b1)) == pow2(a) * (2 * pow2(b1))) by (nonlinear_arith);
    } else {
        assert(pow2(0) == 1);
        assert(a + b == a);
    }
}

proof fn lemma_pow2_positive(a: nat)
    ensures
        pow2(a) >= 1,
    decreases a,
{
    if a > 0 {
        lemma_pow2_positive((a - 1) as nat);
    }
}

/// A thousand is under `2^10`, so `10^(3k) <= 2^(10k)`.
proof fn lemma_tens_under_twos(k: nat)
    ensures
        pow10(3 * k) <= pow2(10 * k),
    decreases k,
{
    if k > 0 {
        let k1 = (k - 1) as nat;
        lemma_tens_under_twos(k1);
        lemma_pow10_add(3 * k1, 3);
        lemma_pow2_add(10 * k1, 10);
        assert(pow10(3) == 1000) by {
            reveal_with_fuel(pow10, 4);
        }
        assert(pow2(10) == 1024) by {
            reveal_with_fuel(pow2, 11);
        }
        assert(3 * k1 + 3 == 3 * k);
        assert(10 * k1 + 10 == 10 * k);
        assert(pow10(3 * k1) * 1000 <= pow2(10 * k1) * 1024) by (nonlinear_arith)
            requires
                pow10(3 * k1) <= pow2(10 * k1),
        ;
    }
}

/// Sixteen is under a hundred, so `2^(4k) <= 10^(2k)`.
proof fn lemma_twos_under_tens(k: nat)
    ensures
        pow2(4 * k) <= pow10(2 * k),
    decreases k,
{
    if k > 0 {
        let k1 = (k - 1) as nat;
        lemma_twos_under_tens(k1);
        lemma_pow10_add(2 * k1, 2);
        lemma_pow2_add(4 * k1, 4);
        assert(pow10(2) == 100) by {
            reveal_with_fuel(pow10, 3);
        }
        assert(pow2(4) == 16) by {
            reveal_with_fuel(pow2, 5);
        }
        assert(2 * k1 + 2 == 2 * k);
        assert(4 * k1 + 4 == 4 * k);
        assert(pow2(4 * k1) * 16 <= pow10(2 * k1) * 100) by (nonlinear_arith)
            requires
                pow2(4 * k1) <= pow10(2 * k1),
        ;
    }
}

/// Where [`overflow`] lies among the powers of ten: past `10^300`, short of
/// `10^512`.
pub proof fn lemma_overflow_between()
    ensures
        pow10(300) <= overflow(),
        overflow() < pow10(512),
        overflow() == (pow2(54) - 1) * pow2(970),
{
    lemma_tens_under_twos(100);
    lemma_twos_under_tens(256);
    lemma_pow2_add(1000, 24);
    lemma_pow2_add(970, 54);
    lemma_pow2_add(54, 916);
    lemma_pow2_add(970, 30);
    lemma_pow2_positive(970);
    lemma_pow2_positive(30);
    lemma_pow2_positive(24);
    lemma_pow2_positive(1000);
    assert(pow2(30) >= 2) by {
        reveal_with_fuel(pow2, 2);
        lemma_pow2_add(1, 29);
        lemma_pow2_positive(29);
    }
    assert(pow2(24) >= 2) by {
        reveal_with_fuel(pow2, 2);
        lemma_pow2_add(1, 23);
        lemma_pow2_positive(23);
    }
    // 2^1024 - 2^970 = 2^970 (2^54 - 1), at least 2^1000 since 2^54 - 1 >= 2^30.
    assert(pow2(54) == pow2(24) * pow2(30)) by {
        lemma_pow2_add(24, 30);
    }
    assert(pow2(1024) == pow2(970) * pow2(54));
    assert(pow2(1000) == pow2(970) * pow2(30));
    assert(pow2(54) - 1 >= pow2(30)) by (nonlinear_arith)
        requires
            pow2(54) == pow2(24) * pow2(30),
            pow2(24) >= 2,
            pow2(30) >= 2,
    ;
    assert(pow2(970) * (pow2(54) - 1) >= pow2(970) * pow2(30)) by (nonlinear_arith)
        requires
            pow2(54) - 1 >= pow2(30),
            pow2(970) >= 1,
    ;
    assert(pow2(970) * pow2(54) - pow2(970) == pow2(970) * (pow2(54) - 1)) by (nonlinear_arith);
    assert(3 * 100 == 300 && 10 * 100 == 1000 && 4 * 256 == 1024 && 2 * 256 == 512);
}

/// For a positive `q`, `d` reaches `t * q` exactly when `d / q` reaches `t`.
proof fn lemma_reaches_scaled(d: nat, t: nat, q: nat)
    requires
        q > 0,
    ensures
        (d >= t * q) <==> (d / q >= t),
{
    vstd::arithmetic::div_mod::lemma_fundamental_div_mod(d as int, q as int);
    let a = d / q;
    let r = d % q;
    if d >= t * q {
        assert(a >= t) by (nonlinear_arith)
            requires
                d == q * a + r,
                r < q,
                d >= t * q,
                q > 0,
        ;
    }
    if a >= t {
        assert(d >= t * q) by (nonlinear_arith)
            requires
                d == q * a + r,
                r >= 0,
                a >= t,
                q > 0,
        ;
    }
}

/// For digits `s` led by a nonzero one, `m` places before the point (so the
/// value is `digits_value(s) * 10^(m - len)`), [`beyond`] is whether the whole
/// part, the first `m` digits made up with zeros, reaches [`overflow`]; and
/// [`micros`] is the first `m + 6` digits, made up with zeros, or nothing when
/// `m + 6` is not positive.
pub proof fn lemma_scaled_by_digits(s: Seq<char>, e: int)
    requires
        s.len() > 0,
        all_digits(s),
        s[0] != '0',
    ensures
        s.len() + e >= 0 ==> (beyond(digits_value(s), e) <==> digits_value(padded(s, (s.len() + e) as nat)) >= overflow()),
        s.len() + e < 0 ==> !beyond(digits_value(s), e),
        s.len() + e + 6 >= 0 ==> micros(digits_value(s), e) == digits_value(padded(s, (s.len() + e + 6) as nat)),
        s.len() + e + 6 < 0 ==> micros(digits_value(s), e) == 0,
{
    let d = digits_value(s);
    let l = s.len();
    lemma_digits_below(s);
    lemma_overflow_between();
    lemma_pow10_positive(300);
    if l + e >= 0 {
        let m = (l + e) as nat;
        lemma_padded(s, m);
        if e < 0 {
            lemma_pow10_positive((-e) as nat);
            lemma_reaches_scaled(d, overflow(), pow10((-e) as nat));
            assert((l - m) as nat == (-e) as nat);
        } else {
            assert((m - l) as nat == e as nat);
        }
    } else {
        // d < 10^l <= 10^(-e) <= overflow * 10^(-e)
        lemma_pow10_grows(l, (-e) as nat);
        lemma_pow10_positive((-e) as nat);
        assert(d < overflow() * pow10((-e) as nat)) by (nonlinear_arith)
            requires
                d < pow10(l),
                pow10(l) <= pow10((-e) as nat),
                overflow() >= 1,
        ;
    }
    if l + e + 6 >= 0 {
        let k = (l + e + 6) as nat;
        lemma_padded(s, k);
        if e + 6 >= 0 {
            assert((k - l) as nat == (e + 6) as nat);
        } else {
            assert((l - k) as nat == (-(e + 6)) as nat);
        }
    } else {
        lemma_pow10_grows(l, (-(e + 6)) as nat);
        lemma_pow10_positive(l);
        vstd::arithmetic::div_mod::lemma_basic_div(d as int, pow10((-(e + 6)) as nat) as int);
    }
}

/// Equal-length digits compare as their first difference does.
pub proof fn lemma_first_difference(a: Seq<char>, b: Seq<char>, i: int)
    requires
        a.len() == b.len(),
        all_digits(a),
        all_digits(b),
        0 <= i < a.len(),
        a.take(i) == b.take(i),
        a[i] > b[i],
    ensures
        digits_value(a) > digits_value(b),
{
    let n = a.len();
    lemma_digits_split(a, i + 1);
    lemma_digits_split(b, i + 1);
    assert(a.take(i + 1).drop_last() =~= a.take(i));
    assert(b.take(i + 1).drop_last() =~= b.take(i));
    let ta = digits_value(a.take(i));
    let p = pow10((n - i - 1) as nat);
    assert(all_digits(b.skip(i + 1))) by {
        assert forall|j: int| 0 <= j < b.skip(i + 1).len() implies is_digit(#[trigger] b.skip(i + 1)[j]) by {
            assert(b.skip(i + 1)[j] == b[j + i + 1]);
        }
    }
    lemma_digits_below(b.skip(i + 1));
    assert(is_digit(a[i]) && is_digit(b[i]));
    let ca = ((a[i] as u32) - 48) as nat;
    let cb = ((b[i] as u32) - 48) as nat;
    assert(ca >= cb + 1);
    let ra = digits_value(a.skip(i + 1));
    let rb = digits_value(b.skip(i + 1));
    assert((ta * 10 + ca) * p + ra > (ta * 10 + cb) * p + rb) by (nonlinear_arith)
        requires
            ca >= cb + 1,
            rb < p,
            ra >= 0,
    ;
}

/// The digits of `2 * digits_value(s)`.
fn doubled(s: &Vec<char>) -> (r: Vec<char>)
    requires
        all_digits(s@),
    ensures
        all_digits(r@),
        digits_value(r@) == 2 * digits_value(s@),
{
    let mut out: Vec<char> = Vec::new();
    let mut carry: u32 = 0;
    let mut i = s.len();
    proof {
        assert(s@.skip(i as int) =~= Seq::<char>::empty());
        assert(pow10(0) == 1);
    }
    while i > 0
        invariant
            i <= s@.len(),
            all_digits(s@),
            all_digits(out@),
            out@.len() == s@.len() - i,
            carry <= 1,
            digits_value(out@) + carry * pow10(out@.len()) == 2 * digits_value(s@.skip(i as int)),
        decreases i,
    {
        let c = s[i - 1];
        proof {
            assert(is_digit(s@[i - 1]));
        }
        let x = 2 * (c as u32 - 48) + carry;
        let digit = ((x % 10) + 48) as u8 as char;
        let ghost before = out@;
        let ghost tail = s@.skip(i as int);
        out.insert(0, digit);
        proof {
            let l = before.len();
            assert(out@.skip(1) =~= before);
            assert(out@.take(1).drop_last() =~= Seq::<char>::empty());
            lemma_digits_split(out@, 1);
            assert(out@[0] == digit);
            assert(out@.take(1).last() == digit);
            assert((digit as u32) == (x % 10) + 48);
            assert(digits_value(out@.take(1)) == digits_value(out@.take(1).drop_last()) * 10 + ((digit as u32) - 48) as nat);
            assert(digits_value(out@.take(1)) == (x % 10) as nat);
            assert((out@.len() - 1) as nat == l);
            assert(digits_value(out@) == (x % 10) as nat * pow10(l) + digits_value(before));
            let front = s@.skip(i - 1);
            assert(front.skip(1) =~= tail);
            assert(front.take(1).drop_last() =~= Seq::<char>::empty());
            lemma_digits_split(front, 1);
            assert(front[0] == c);
            assert(front.take(1).last() == c);
            assert(digits_value(front.take(1)) == digits_value(front.take(1).drop_last()) * 10 + ((c as u32) - 48) as nat);
            assert(front.len() == l + 1);
            assert(digits_value(front) == (c as u32 - 48) as nat * pow10(l) + digits_value(tail));
            assert(pow10(l + 1) == 10 * pow10(l));
            assert forall|j: int| 0 <= j < out@.len() implies is_digit(#[trigger] out@[j]) by {
                if j > 0 {
                    assert(out@[j] == before[j - 1]);
                }
            }
            assert((x % 10) as nat * pow10(l) + (x / 10) as nat * (10 * pow10(l)) == x as nat * pow10(l)) by (nonlinear_arith)
                requires
                    x as nat == (x / 10) as nat * 10 + (x % 10) as nat,
            ;
            let cv = (c as u32 - 48) as nat;
            let pl = pow10(l);
            assert(x as nat == 2 * cv + carry as nat);
            assert(x as nat * pl == 2 * (cv * pl) + carry as nat * pl) by (nonlinear_arith)
                requires
                    x as nat == 2 * cv + carry as nat,
            ;
        }
        carry = x / 10;
        i -= 1;
    }
    proof {
        assert(s@.skip(0) =~= s@);
    }
    if carry > 0 {
        let ghost before = out@;
        out.insert(0, '1');
        proof {
            assert(out@.skip(1) =~= before);
            assert(out@.take(1).drop_last() =~= Seq::<char>::empty());
            lemma_digits_split(out@, 1);
            assert forall|j: int| 0 <= j < out@.len() implies is_digit(#[trigger] out@[j]) by {
                if j > 0 {
                    assert(out@[j] == before[j - 1]);
                }
            }
        }
    }
    out
}

/// The digits of [`overflow`]: `2^54 - 1` doubled 970 times.
fn overflow_text() -> (r: Vec<char>)
    ensures
        all_digits(r@),
        digits_value(r@) == overflow(),
{
    let mut out: Vec<char> = Vec::new();
    crate::text::push_decimal(&mut out, 18_014_398_509_481_983);
    proof {
        crate::server::lemma_decimal_digits(18_014_398_509_481_983);
        assert(pow2(54) == 18_014_398_509_481_984) by {
            reveal_with_fuel(pow2, 55);
        }
        assert(out@ =~= crate::text::decimal(18_014_398_509_481_983));
        assert(all_digits(out@));
        assert(pow2(0) == 1);
    }
    let mut j: u32 = 0;
    while j < 970
        invariant
            j <= 970,
            all_digits(out@),
            digits_value(out@) == (pow2(54) - 1) * pow2(j as nat),
            pow2(54) == 18_014_398_509_481_984,
        decreases 970 - j,
    {
        let next = doubled(&out);
        proof {
            assert(pow2((j + 1) as nat) == 2 * pow2(j as nat));
            assert(2 * ((pow2(54) - 1) * pow2(j as nat)) == (pow2(54) - 1) * (2 * pow2(j as nat))) by (nonlinear_arith);
        }
        out = next;
        j += 1;
    }
    proof {
        lemma_overflow_between();
    }
    out
}

/// Exponents past this many places say no more: with fewer digits than
/// `2^64`, the figure is then far past infinity or far below a millionth.
const EXPONENT_CAP: u128 = 36_893_488_147_419_103_232;

/// `padded(s@.skip(z), ..)[i]`.
fn digit_at(s: &Vec<char>, z: usize, i: usize) -> (c: char)
    requires
        z <= s.len(),
    ensures
        c == (if i < s@.len() - z { s@.skip(z as int)[i as int] } else { '0' }),
{
    if i < s.len() - z {
        s[z + i]
    } else {
        '0'
    }
}

proof fn lemma_padded_digits(s: Seq<char>, k: nat)
    requires
        all_digits(s),
    ensures
        all_digits(padded(s, k)),
        padded(s, k).len() == k,
        k > 0 && s.len() > 0 ==> padded(s, k)[0] == s[0],
{
    assert forall|j: int| 0 <= j < padded(s, k).len() implies is_digit(#[trigger] padded(s, k)[j]) by {
        if j < s.len() {
            assert(is_digit(s[j]));
        }
    }
}

/// The digits `s` from `z` on, which start with a nonzero one, scaled past
/// the point by `m` places and cut to whole millionths: `m + 6` digits,
/// between one and nineteen of them.
fn micros_of(s: &Vec<char>, z: usize, k: usize) -> (r: u128)
    requires
        z < s.len(),
        all_digits(s@),
        1 <= k <= 19,
    ensures
        r == digits_value(padded(s@.skip(z as int), k as nat)),
        r < 10_000_000_000_000_000_000,
{
    let ghost tail = s@.skip(z as int);
    assert(all_digits(tail)) by {
        assert forall|j: int| 0 <= j < tail.len() implies is_digit(#[trigger] tail[j]) by {
            assert(tail[j] == s@[j + z]);
        }
    }
    let mut acc: u128 = 0;
    let mut i: usize = 0;
    proof {
        assert(padded(tail, 0) =~= Seq::<char>::empty());
        lemma_pow10_grows(0, 19);
    }
    while i < k
        invariant
            i <= k <= 19,
            z < s@.len(),
            tail == s@.skip(z as int),
            all_digits(tail),
            acc == digits_value(padded(tail, i as nat)),
            acc < pow10(i as nat),
            pow10(i as nat) <= pow10(19),
        decreases k - i,
    {
        let c = digit_at(s, z, i);
        proof {
            assert(padded(tail, (i + 1) as nat).drop_last() =~= padded(tail, i as nat));
            assert(padded(tail, (i + 1) as nat).last() == c);
            if (i as int) < tail.len() {
                assert(is_digit(tail[i as int]));
            }
            assert(pow10((i + 1) as nat) == 10 * pow10(i as nat));
            lemma_pow10_grows((i + 1) as nat, 19);
            assert(pow10(19) == 10_000_000_000_000_000_000) by {
                reveal_with_fuel(pow10, 20);
            }
        }
        acc = acc * 10 + (c as u32 - 48) as u128;
        i += 1;
    }
    proof {
        assert(pow10(19) == 10_000_000_000_000_000_000) by {
            reveal_with_fuel(pow10, 20);
        }
    }
    acc
}

/// Whether the digits `s` from `z` on, scaled past the point by `m` places
/// with `m` between 301 and 512, reach [`overflow`].
fn reaches_overflow(s: &Vec<char>, z: usize, m: usize) -> (r: bool)
    requires
        z < s.len(),
        all_digits(s@),
        s@[z as int] != '0',
        301 <= m <= 512,
    ensures
        r == (digits_value(padded(s@.skip(z as int), m as nat)) >= overflow()),
{
    let ghost tail = s@.skip(z as int);
    assert(all_digits(tail)) by {
        assert forall|j: int| 0 <= j < tail.len() implies is_digit(#[trigger] tail[j]) by {
            assert(tail[j] == s@[j + z]);
        }
    }
    let ghost whole = padded(tail, m as nat);
    let limit = overflow_text();
    let n = limit.len();
    proof {
        lemma_padded_digits(tail, m as nat);
        lemma_digits_at_least(whole);
        lemma_digits_below(limit@);
    }
    if m > n {
        proof {
            lemma_pow10_grows(n as nat, (m - 1) as nat);
        }
        return true;
    }
    let ghost lined = aligned(tail, m as nat, n as nat);
    proof {
        assert(lined.skip((n - m) as int) =~= whole);
        lemma_leading_zeros(lined, (n - m) as int);
        assert forall|j: int| 0 <= j < lined.len() implies is_digit(#[trigger] lined[j]) by {
            if j >= n - m {
                assert(lined[j] == whole[j - (n - m)]);
            }
        }
    }
    let mut i: usize = 0;
    while i < n
        invariant
            i <= n == limit@.len(),
            m <= n,
            z < s@.len(),
            tail == s@.skip(z as int),
            whole == padded(tail, m as nat),
            lined == aligned(tail, m as nat, n as nat),
            lined.take(i as int) == limit@.take(i as int),
            all_digits(lined),
            all_digits(limit@),
            lined.len() == n,
            digits_value(lined) == digits_value(whole),
            digits_value(limit@) == overflow(),
        decreases n - i,
    {
        let a = if i < n - m { '0' } else { digit_at(s, z, i - (n - m)) };
        proof {
            assert(lined[i as int] == a);
        }
        if a != limit[i] {
            proof {
                if a > limit@[i as int] {
                    lemma_first_difference(lined, limit@, i as int);
                } else {
                    lemma_first_difference(limit@, lined, i as int);
                }
            }
            return a > limit[i];
        }
        proof {
            assert(lined.take(i + 1) =~= lined.take(i as int).push(a));
            assert(limit@.take(i + 1) =~= limit@.take(i as int).push(limit@[i as int]));
        }
        i += 1;
    }
    proof {
        assert(lined =~= lined.take(n as int));
        assert(limit@ =~= limit@.take(n as int));
    }
    true
}

/// What `d * 10^e` reads as, for the digits `d` of a figure, `fraction` of
/// them after the point, and an exponent of `exponent` places, negative when
/// `exponent_negative`, of which `capped` is the size held to
/// [`EXPONENT_CAP`].
fn reading(
    negative: bool,
    d: &Vec<char>,
    fraction: usize,
    exponent_negative: bool,
    capped: u128,
    Ghost(exponent): Ghost<nat>,
) -> (r: Option<i64>)
    requires
        all_digits(d@),
        fraction <= d.len(),
        capped == (if exponent < EXPONENT_CAP { exponent } else { EXPONENT_CAP as nat }),
    ensures
        r == reading_of(
            negative,
            digits_value(d@),
            (if exponent_negative { -exponent } else { exponent as int }) - fraction,
        ),
{
    let ghost x: int = if exponent_negative { -exponent } else { exponent as int };
    let ghost e: int = x - fraction;
    let n = d.len();
    let mut z: usize = 0;
    while z < n && d[z] == '0'
        invariant
            z <= n == d@.len(),
            forall|j: int| 0 <= j < z ==> d@[j] == '0',
        decreases n - z,
    {
        z += 1;
    }
    proof {
        lemma_leading_zeros(d@, z as int);
        lemma_overflow_between();
        lemma_pow10_positive(300);
    }
    if z == n {
        proof {
            assert(d@.skip(z as int) =~= Seq::<char>::empty());
            assert(digits_value(d@) == 0);
            if e < 0 {
                lemma_pow10_positive((-e) as nat);
                assert(overflow() * pow10((-e) as nat) >= 1) by (nonlinear_arith)
                    requires
                        overflow() >= 1,
                        pow10((-e) as nat) >= 1,
                ;
            } else {
                assert(0 * pow10(e as nat) == 0);
            }
            if e + 6 < 0 {
                lemma_pow10_positive((-(e + 6)) as nat);
                vstd::arithmetic::div_mod::lemma_basic_div(0, pow10((-(e + 6)) as nat) as int);
            } else {
                assert(0 * pow10((e + 6) as nat) == 0);
            }
        }
        return Some(0);
    }
    let ghost tail = d@.skip(z as int);
    let l = n - z;
    proof {
        assert(all_digits(tail)) by {
            assert forall|j: int| 0 <= j < tail.len() implies is_digit(#[trigger] tail[j]) by {
                assert(tail[j] == d@[j + z]);
            }
        }
        assert(tail[0] == d@[z as int]);
        lemma_scaled_by_digits(tail, e);
    }
    let signed: i128 = if exponent_negative { -(capped as i128) } else { capped as i128 };
    let m: i128 = l as i128 + signed - fraction as i128;
    proof {
        if exponent >= EXPONENT_CAP {
            if exponent_negative {
                assert(l + e <= -7);
                assert(m <= -7);
            } else {
                assert(l + e >= 513);
                assert(m >= 513);
            }
        } else {
            assert(m == l + e);
        }
    }
    if m >= 513 {
        proof {
            let k = (l + e) as nat;
            lemma_padded_digits(tail, k);
            lemma_digits_at_least(padded(tail, k));
            lemma_pow10_grows(512, (k - 1) as nat);
        }
        return None;
    }
    if m > 300 {
        let k = m as usize;
        let over = reaches_overflow(d, z, k);
        if over {
            return None;
        }
        proof {
            lemma_padded_digits(tail, (k + 6) as nat);
            lemma_digits_at_least(padded(tail, (k + 6) as nat));
            lemma_pow10_grows(19, (k + 5) as nat);
            assert(pow10(19) == 10_000_000_000_000_000_000) by {
                reveal_with_fuel(pow10, 20);
            }
        }
        return Some(if negative { i64::MIN } else { i64::MAX });
    }
    proof {
        if l + e >= 0 {
            let k = (l + e) as nat;
            lemma_padded_digits(tail, k);
            lemma_digits_below(padded(tail, k));
            lemma_pow10_grows(k, 300);
        }
    }
    if m + 6 <= 0 {
        proof {
            if l + e + 6 == 0 {
                assert(padded(tail, 0) =~= Seq::<char>::empty());
            }
        }
        return Some(0);
    }
    if m + 6 >= 20 {
        proof {
            let k = (l + e + 6) as nat;
            lemma_padded_digits(tail, k);
            lemma_digits_at_least(padded(tail, k));
            lemma_pow10_grows(19, (k - 1) as nat);
            assert(pow10(19) == 10_000_000_000_000_000_000) by {
                reveal_with_fuel(pow10, 20);
            }
        }
        return Some(if negative { i64::MIN } else { i64::MAX });
    }
    let k = (m + 6) as usize;
    let value = micros_of(d, z, k);
    let signed_value: i128 = if negative { -(value as i128) } else { value as i128 };
    if signed_value > i64::MAX as i128 {
        Some(i64::MAX)
    } else if signed_value < i64::MIN as i128 {
        Some(i64::MIN)
    } else {
        Some(signed_value as i64)
    }
}

/// The size of an exponent's digits: `exponent_of` without the sign.
pub open spec fn exponent_magnitude(e: Seq<char>) -> nat {
    let signed = e.len() > 0 && (e[0] == '+' || e[0] == '-');
    digits_value(if signed { e.drop_first() } else { e })
}

/// An exponent `t[start..end]`: whether it is negative, and its size held to
/// [`EXPONENT_CAP`]; `None` when it is not a sign and digits.
fn exponent_parts(t: &Vec<char>, start: usize, end: usize) -> (r: Option<(bool, u128)>)
    requires
        start <= end <= t.len(),
    ensures
        ({
            let e = t@.subrange(start as int, end as int);
            match r {
                None => exponent_of(e) is None,
                Some((negative, capped)) => {
                    &&& exponent_of(e) == Some(
                        if negative { -(exponent_magnitude(e) as int) } else { exponent_magnitude(e) as int },
                    )
                    &&& capped == (if exponent_magnitude(e) < EXPONENT_CAP {
                        exponent_magnitude(e)
                    } else {
                        EXPONENT_CAP as nat
                    })
                },
            }
        }),
{
    let ghost e = t@.subrange(start as int, end as int);
    let negative = start < end && t[start] == '-';
    let signed = start < end && (t[start] == '+' || t[start] == '-');
    let from = if signed { start + 1 } else { start };
    let ghost digits = if signed { e.drop_first() } else { e };
    proof {
        assert(digits =~= t@.subrange(from as int, end as int));
    }
    if from == end {
        return None;
    }
    let mut value: u128 = 0;
    let mut i = from;
    while i < end
        invariant
            from <= i <= end <= t@.len(),
            digits == t@.subrange(from as int, end as int),
            e == t@.subrange(start as int, end as int),
            signed == (e.len() > 0 && (e[0] == '+' || e[0] == '-')),
            negative == (e.len() > 0 && e[0] == '-'),
            digits == (if signed { e.drop_first() } else { e }),
            all_digits(digits.take(i - from)),
            value == (if digits_value(digits.take(i - from)) < EXPONENT_CAP {
                digits_value(digits.take(i - from))
            } else {
                EXPONENT_CAP as nat
            }),
        decreases end - i,
    {
        let c = t[i];
        if !('0' <= c && c <= '9') {
            proof {
                assert(digits[i - from] == c);
                assert(!is_digit(digits[i - from]));
                assert(!all_digits(digits));
                assert(exponent_of(e) is None);
            }
            return None;
        }
        let d = (c as u32 - 48) as u128;
        proof {
            let before = digits.take(i - from);
            assert(digits.take(i - from + 1) =~= before.push(c));
            assert(digits.take(i - from + 1).drop_last() =~= before);
            assert(digits_value(digits.take(i - from + 1)) == digits_value(before) * 10 + d);
            assert forall|j: int| 0 <= j < i - from + 1 implies is_digit(#[trigger] digits.take(i - from + 1)[j]) by {
                if j < i - from {
                    assert(digits.take(i - from + 1)[j] == before[j]);
                }
            }
        }
        value = if value * 10 + d < EXPONENT_CAP { value * 10 + d } else { EXPONENT_CAP };
        i += 1;
    }
    proof {
        assert(digits.take(end - from) =~= digits);
    }
    Some((negative, value))
}

/// The digits of the mantissa `t[from..mark]`, those before its point and
/// then those after, and how many come after; `None` when one is not an
/// ASCII digit or there are none.
fn mantissa_digits(t: &Vec<char>, from: usize, mark: usize) -> (r: Option<(Vec<char>, usize)>)
    requires
        from <= mark <= t.len(),
    ensures
        ({
            let mantissa = t@.subrange(from as int, mark as int);
            let whole = whole_part(mantissa);
            let fraction = fraction_part(mantissa);
            match r {
                None => !(all_digits(whole) && all_digits(fraction) && whole.len() + fraction.len() > 0),
                Some((digits, count)) => {
                    &&& all_digits(whole) && all_digits(fraction) && whole.len() + fraction.len() > 0
                    &&& digits@ == whole + fraction
                    &&& count == fraction.len()
                },
            }
        }),
{
    let ghost mantissa = t@.subrange(from as int, mark as int);
    let mut dot = from;
    while dot < mark && t[dot] != '.'
        invariant
            from <= dot <= mark <= t@.len(),
            mantissa == t@.subrange(from as int, mark as int),
            find_char(mantissa, 0, '.') == find_char(mantissa, dot - from, '.'),
        decreases mark - dot,
    {
        dot += 1;
    }
    assert(find_char(mantissa, dot - from, '.') == dot - from);
    let ghost whole = whole_part(mantissa);
    let ghost fraction = fraction_part(mantissa);
    proof {
        assert(whole =~= t@.subrange(from as int, dot as int));
        if dot < mark {
            assert(fraction =~= t@.subrange(dot + 1, mark as int));
        }
    }
    let mut digits: Vec<char> = Vec::new();
    let mut i = from;
    while i < dot
        invariant
            from <= i <= dot <= mark <= t@.len(),
            whole == t@.subrange(from as int, dot as int),
            mantissa == t@.subrange(from as int, mark as int),
            whole == whole_part(mantissa),
            fraction == fraction_part(mantissa),
            digits@ == whole.take(i - from),
            all_digits(digits@),
        decreases dot - i,
    {
        let c = t[i];
        if !('0' <= c && c <= '9') {
            proof {
                assert(whole[i - from] == c);
                assert(!is_digit(whole[i - from]));
                assert(!all_digits(whole));
            }
            return None;
        }
        digits.push(c);
        proof {
            assert(whole.take(i - from + 1) =~= whole.take(i - from).push(c));
        }
        i += 1;
    }
    proof {
        assert(whole.take(dot - from) =~= whole);
    }
    let mut j = if dot < mark { dot + 1 } else { mark };
    let ghost begun = j;
    proof {
        assert(fraction =~= t@.subrange(begun as int, mark as int));
    }
    while j < mark
        invariant
            begun <= j <= mark <= t@.len(),
            fraction == t@.subrange(begun as int, mark as int),
            mantissa == t@.subrange(from as int, mark as int),
            whole == whole_part(mantissa),
            fraction == fraction_part(mantissa),
            digits@ == whole + fraction.take(j - begun),
            all_digits(whole),
            all_digits(digits@),
        decreases mark - j,
    {
        let c = t[j];
        if !('0' <= c && c <= '9') {
            proof {
                assert(fraction[j - begun] == c);
                assert(!is_digit(fraction[j - begun]));
            }
            return None;
        }
        digits.push(c);
        proof {
            assert(fraction.take(j - begun + 1) =~= fraction.take(j - begun).push(c));
            assert(whole + fraction.take(j - begun + 1) =~= (whole + fraction.take(j - begun)).push(c));
            assert forall|k: int| 0 <= k < digits@.len() implies is_digit(#[trigger] digits@[k]) by {
                if k < digits@.len() - 1 {
                    assert(digits@[k] == (whole + fraction.take(j - begun))[k]);
                }
            }
        }
        j += 1;
    }
    proof {
        assert(fraction.take(mark - begun) =~= fraction);
        assert forall|k: int| 0 <= k < fraction.len() implies is_digit(#[trigger] fraction[k]) by {
            assert(digits@[whole.len() + k] == fraction[k]);
        }
    }
    if digits.len() == 0 {
        return None;
    }
    let count = if dot < mark { mark - dot - 1 } else { 0 };
    Some((digits, count))
}

/// What the figure `t[start..end]` reads as, as [`figure_value`] says.
pub fn figure_of(t: &Vec<char>, start: usize, end: usize) -> (r: Option<i64>)
    requires
        start <= end <= t.len(),
    ensures
        r == figure_value(t@.subrange(start as int, end as int)),
{
    let ghost u = t@.subrange(start as int, end as int);
    let negative = start < end && t[start] == '-';
    let signed = start < end && (t[start] == '+' || t[start] == '-');
    let from = if signed { start + 1 } else { start };
    let ghost body = if signed { u.drop_first() } else { u };
    proof {
        assert(body =~= t@.subrange(from as int, end as int));
    }
    let mut mark = from;
    while mark < end && t[mark] != 'e' && t[mark] != 'E'
        invariant
            from <= mark <= end <= t@.len(),
            body == t@.subrange(from as int, end as int),
            exponent_mark(body, 0) == exponent_mark(body, mark - from),
        decreases end - mark,
    {
        mark += 1;
    }
    assert(exponent_mark(body, mark - from) == mark - from);
    let ghost mantissa = body.take(mark - from);
    proof {
        assert(mantissa =~= t@.subrange(from as int, mark as int));
        if mark < end {
            assert(body.skip(mark - from + 1) =~= t@.subrange(mark + 1, end as int));
        }
    }
    let (exponent_negative, capped) = if mark < end {
        match exponent_parts(t, mark + 1, end) {
            Some(parts) => parts,
            None => return None,
        }
    } else {
        (false, 0)
    };
    let ghost magnitude: nat = if mark < end { exponent_magnitude(t@.subrange(mark + 1, end as int)) } else { 0 };
    let ghost whole = whole_part(mantissa);
    let ghost fraction = fraction_part(mantissa);
    let (digits, flen) = match mantissa_digits(t, from, mark) {
        Some(parts) => parts,
        None => return None,
    };
    reading(negative, &digits, flen, exponent_negative, capped, Ghost(magnitude))
}

} // verus!
