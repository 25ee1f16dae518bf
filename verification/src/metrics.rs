//! The shape of everything mctop measures, plus the ring buffers that keep a
//! little history of each number so the charts have something to draw.
//!
//! Readings are held in fixed point: [`UNIT`] stands for one, so a tick rate of
//! 19.87 is held as `19_870_000`. Times are whole milliseconds.

use vstd::prelude::*;

use crate::text::{decimal, signed_decimal, push_signed, push_all, chars_of, string_from, eq_ignoring_ascii_case, same_ignoring_ascii_case};

verus! {

/// Fixed-point scale: a reading of `UNIT` stands for 1.0.
pub const UNIT: i64 = 1_000_000;

/// `a / b` rounded towards negative infinity, for a positive `b`.
pub fn floor_div(a: i128, b: i128) -> (r: i128)
    requires
        b > 0,
        a > i128::MIN + b,
    ensures
        r == a / b,
        a >= 0 ==> 0 <= r <= a,
        a < 0 ==> a <= r < 0,
{
    proof {
        lemma_div_bounds(a as int, b as int);
    }
    if a >= 0 {
        a / b
    } else {
        let q = (-a + b - 1) / b;
        proof {
            let n: int = -(a as int);
            let bb: int = b as int;
            let k: int = (n + bb - 1) / bb;
            assert(q == k);
            lemma_floor_neg(a as int, bb, n, k);
        }
        -q
    }
}

proof fn lemma_div_bounds(a: int, b: int)
    requires
        b > 0,
    ensures
        a >= 0 ==> 0 <= a / b <= a,
        a < 0 ==> a <= a / b < 0,
{
    let q = a / b;
    let r = a % b;
    assert(a == q * b + r && 0 <= r < b) by (nonlinear_arith)
        requires b > 0, q == a / b, r == a % b;
    if a >= 0 {
        assert(0 <= q <= a) by (nonlinear_arith)
            requires a == q * b + r, 0 <= r < b, b > 0, a >= 0;
    } else {
        assert(a <= q < 0) by (nonlinear_arith)
            requires a == q * b + r, 0 <= r < b, b > 0, a < 0;
    }
}

proof fn lemma_floor_neg(a: int, b: int, n: int, k: int)
    requires
        n == -a,
        n > 0,
        b > 0,
        k == (n + b - 1) / b,
    ensures
        a / b == -k,
{
    let r = (n + b - 1) % b;
    assert(n + b - 1 == k * b + r && 0 <= r < b) by (nonlinear_arith)
        requires
            b > 0,
            k == (n + b - 1) / b,
            r == (n + b - 1) % b,
    ;
    assert(a == (-k) * b + (b - 1 - r)) by (nonlinear_arith)
        requires
            n + b - 1 == k * b + r,
            n == -a,
    ;
    assert(a / b == -k) by (nonlinear_arith)
        requires
            a == (-k) * b + (b - 1 - r),
            0 <= b - 1 - r < b,
            b > 0,
    ;
}

/// The values of a run of samples, in order.
pub open spec fn values(samples: Seq<(u64, i64)>) -> Seq<i64> {
    samples.map_values(|sample: (u64, i64)| sample.1)
}

/// Smallest value of a non-empty sequence.
pub open spec fn seq_min(s: Seq<i64>) -> i64
    decreases s.len(),
{
    if s.len() <= 1 {
        s[0]
    } else if s.last() < seq_min(s.drop_last()) {
        s.last()
    } else {
        seq_min(s.drop_last())
    }
}

/// Largest value of a non-empty sequence.
pub open spec fn seq_max(s: Seq<i64>) -> i64
    decreases s.len(),
{
    if s.len() <= 1 {
        s[0]
    } else if s.last() > seq_max(s.drop_last()) {
        s.last()
    } else {
        seq_max(s.drop_last())
    }
}

pub proof fn lemma_min_max(s: Seq<i64>)
    requires
        s.len() > 0,
    ensures
        forall|i: int| 0 <= i < s.len() ==> seq_min(s) <= #[trigger] s[i] <= seq_max(s),
        exists|i: int| 0 <= i < s.len() && s[i] == seq_min(s),
        exists|i: int| 0 <= i < s.len() && s[i] == seq_max(s),
    decreases s.len(),
{
    if s.len() > 1 {
        lemma_min_max(s.drop_last());
        let t = s.drop_last();
        assert forall|i: int| 0 <= i < s.len() implies seq_min(s) <= #[trigger] s[i] <= seq_max(s) by {
            if i < s.len() - 1 {
                assert(s[i] == t[i]);
            }
        }
        if !(s.last() < seq_min(t)) {
            let k = choose|i: int| 0 <= i < t.len() && t[i] == seq_min(t);
            assert(s[k] == seq_min(s));
        } else {
            assert(s[s.len() - 1] == seq_min(s));
        }
        if !(s.last() > seq_max(t)) {
            let k = choose|i: int| 0 <= i < t.len() && t[i] == seq_max(t);
            assert(s[k] == seq_max(s));
        } else {
            assert(s[s.len() - 1] == seq_max(s));
        }
    } else {
        assert(s[0] == seq_min(s));
        assert(s[0] == seq_max(s));
    }
}

/// The first index from which every sample, to the end, was taken at or after
/// `cutoff`: the run that walking back from the newest sample reaches.
pub open spec fn recent_start(samples: Seq<(u64, i64)>, cutoff: u64, end: int) -> int
    decreases end,
{
    if end > 0 && samples[end - 1].0 >= cutoff {
        recent_start(samples, cutoff, end - 1)
    } else {
        end
    }
}

/// A fixed-capacity series of timestamped samples, oldest first.
#[derive(Debug)]
pub struct History {
    samples: Vec<(u64, i64)>,
    capacity: usize,
}

impl View for History {
    type V = (Seq<(u64, i64)>, nat);

    closed spec fn view(&self) -> (Seq<(u64, i64)>, nat) {
        (self.samples@, self.capacity as nat)
    }
}

impl History {
    /// Never more samples than the capacity, which is at least two.
    #[verifier::type_invariant]
    spec fn bounded(self) -> bool {
        &&& self.samples.len() <= self.capacity
        &&& self.capacity >= 2
    }

    pub fn new(capacity: usize) -> (r: History)
        ensures
            r@.0 == Seq::<(u64, i64)>::empty(),
            r@.1 == if capacity < 2 { 2 } else { capacity },
    {
        History { samples: Vec::new(), capacity: if capacity < 2 { 2 } else { capacity } }
    }

    /// Record `value` as taken at `at` milliseconds, dropping the oldest sample
    /// when the series is full.
    pub fn push_at(&mut self, at: u64, value: i64)
        ensures
            final(self)@.1 == old(self)@.1,
            final(self)@.0.len() <= final(self)@.1,
            final(self)@.0.last() == (at, value),
            final(self)@.0 == if old(self)@.0.len() == old(self)@.1 {
                old(self)@.0.drop_first().push((at, value))
            } else {
                old(self)@.0.push((at, value))
            },
    {
        proof {
            use_type_invariant(&*self);
        }
        let capacity = self.capacity;
        let mut samples: Vec<(u64, i64)> = Vec::new();
        std::mem::swap(&mut samples, &mut self.samples);
        if samples.len() == capacity {
            samples.remove(0);
        }
        samples.push((at, value));
        self.samples = samples;
    }

    pub fn is_empty(&self) -> (r: bool)
        ensures
            r == (self@.0.len() == 0),
    {
        self.samples.len() == 0
    }

    pub fn len(&self) -> (r: usize)
        ensures
            r == self@.0.len(),
    {
        self.samples.len()
    }

    pub fn last(&self) -> (r: Option<i64>)
        ensures
            r == if self@.0.len() == 0 { None } else { Some(self@.0.last().1) },
    {
        if self.samples.len() == 0 {
            None
        } else {
            Some(self.samples[self.samples.len() - 1].1)
        }
    }

    /// The most recent `count` values, oldest first.
    pub fn tail(&self, count: usize) -> (r: Vec<i64>)
        ensures
            r@ == values(self@.0.subrange(
                if count < self@.0.len() { self@.0.len() - count } else { 0 },
                self@.0.len() as int,
            )),
    {
        let len = self.samples.len();
        let skip = if count < len { len - count } else { 0 };
        let mut out: Vec<i64> = Vec::new();
        let mut i = skip;
        while i < len
            invariant
                skip <= i <= len,
                len == self@.0.len(),
                out@ == values(self@.0.subrange(skip as int, i as int)),
            decreases len - i,
        {
            out.push(self.samples[i].1);
            i += 1;
            assert(values(self@.0.subrange(skip as int, i as int)) =~= values(
                self@.0.subrange(skip as int, i - 1),
            ).push(self@.0[i - 1].1));
        }
        out
    }

    /// Points for a line chart: for each of the most recent `count` samples,
    /// its age before the newest one as a negative number of milliseconds, and
    /// its value.
    pub fn points(&self, count: usize) -> (r: Vec<(i64, i64)>)
        ensures
            r@ == chart_points(self@.0, count as int),
    {
        let len = self.samples.len();
        if len == 0 {
            return Vec::new();
        }
        let newest = self.samples[len - 1].0;
        let skip = if count < len { len - count } else { 0 };
        let mut out: Vec<(i64, i64)> = Vec::new();
        let mut i = skip;
        while i < len
            invariant
                skip <= i <= len,
                len == self@.0.len(),
                newest == self@.0.last().0,
                out@.len() == i - skip,
                forall|j: int|
                    0 <= j < out@.len() ==> #[trigger] out@[j].0 == -age(newest, self@.0[skip + j].0)
                        && out@[j].1 == self@.0[skip + j].1,
            decreases len - i,
        {
            let at = self.samples[i].0;
            let elapsed = if at <= newest { newest - at } else { 0 };
            let x: i64 = if elapsed > i64::MAX as u64 { -i64::MAX } else { -(elapsed as i64) };
            out.push((x, self.samples[i].1));
            i += 1;
        }
        proof {
            let want = chart_points(self@.0, count as int);
            assert(want.len() == out@.len());
            assert forall|j: int| 0 <= j < out@.len() implies out@[j] == want[j] by {
                let a = age(newest, self@.0[skip + j].0);
                assert(0 <= a <= i64::MAX);
                assert(want[j].0 == -a);
                assert(out@[j].0 == -a);
            }
            assert(out@ =~= want);
        }
        out
    }

    /// Smallest and largest value held, if any.
    pub fn bounds(&self) -> (r: Option<(i64, i64)>)
        ensures
            self@.0.len() == 0 ==> r.is_none(),
            self@.0.len() > 0 ==> r == Some((seq_min(values(self@.0)), seq_max(values(self@.0)))),
    {
        let len = self.samples.len();
        if len == 0 {
            return None;
        }
        let mut low = self.samples[0].1;
        let mut high = self.samples[0].1;
        let mut i: usize = 1;
        while i < len
            invariant
                1 <= i <= len,
                len == self@.0.len(),
                low == seq_min(values(self@.0).take(i as int)),
                high == seq_max(values(self@.0).take(i as int)),
            decreases len - i,
        {
            let value = self.samples[i].1;
            proof {
                let t = values(self@.0).take(i + 1);
                assert(t.drop_last() =~= values(self@.0).take(i as int));
                assert(t.last() == value);
            }
            if value < low {
                low = value;
            }
            if value > high {
                high = value;
            }
            i += 1;
        }
        assert(values(self@.0).take(len as int) =~= values(self@.0));
        Some((low, high))
    }

    /// Smallest value among the newest samples taken no more than `window`
    /// milliseconds before the newest one, walking back until the first older
    /// sample.
    pub fn min_over(&self, window: u64) -> (r: Option<i64>)
        ensures
            r == low_water(self@.0, window),
            self@.0.len() == 0 ==> r.is_none(),
            self@.0.len() > 0 ==> ({
                let cutoff = sub_or_zero(self@.0.last().0, window);
                let start = recent_start(self@.0, cutoff, self@.0.len() as int);
                &&& start < self@.0.len()
                &&& r == Some(seq_min(values(self@.0.subrange(start, self@.0.len() as int))))
            }),
    {
        let len = self.samples.len();
        if len == 0 {
            return None;
        }
        let newest = self.samples[len - 1].0;
        let cutoff = if newest >= window { newest - window } else { 0 };
        let mut start = len - 1;
        let mut low = self.samples[len - 1].1;
        proof {
            assert(values(self@.0.subrange(start as int, len as int)) =~= seq![low]);
        }
        while start > 0 && self.samples[start - 1].0 >= cutoff
            invariant
                0 <= start < len,
                len == self@.0.len(),
                recent_start(self@.0, cutoff, len as int) == recent_start(self@.0, cutoff, start as int),
                low == seq_min(values(self@.0.subrange(start as int, len as int))),
            decreases start,
        {
            let value = self.samples[start - 1].1;
            proof {
                let s = values(self@.0.subrange(start - 1, len as int));
                let t = values(self@.0.subrange(start as int, len as int));
                assert(s =~= seq![value] + t);
                lemma_min_prepend(s, t, value);
            }
            if value < low {
                low = value;
            }
            start -= 1;
        }
        Some(low)
    }
}

/// Whether every sample of `samples` from `i` on was taken at or after
/// `cutoff`: whether `i` starts a run of samples inside the window.
pub open spec fn inside_from(samples: Seq<(u64, i64)>, cutoff: u64, i: int) -> bool {
    forall|j: int| i <= j < samples.len() ==> (#[trigger] samples[j]).0 >= cutoff
}

proof fn lemma_recent_start(samples: Seq<(u64, i64)>, cutoff: u64, end: int)
    requires
        0 <= end <= samples.len(),
    ensures
        0 <= recent_start(samples, cutoff, end) <= end,
        forall|k: int| recent_start(samples, cutoff, end) <= k < end ==> (#[trigger] samples[k]).0 >= cutoff,
        recent_start(samples, cutoff, end) > 0 ==> samples[recent_start(samples, cutoff, end) - 1].0 < cutoff,
    decreases end,
{
    if end > 0 && samples[end - 1].0 >= cutoff {
        lemma_recent_start(samples, cutoff, end - 1);
    }
}

/// The low-water mark over a window is the least of the samples in it: no
/// more than any sample in the run of newest samples taken at or after the
/// window's start, and equal to one of them.
pub proof fn lemma_low_water_is_the_least_in_the_window(samples: Seq<(u64, i64)>, window: u64)
    requires
        samples.len() > 0,
    ensures
        low_water(samples, window) matches Some(low) && ({
            let cutoff = sub_or_zero(samples.last().0, window);
            &&& forall|i: int|
                0 <= i < samples.len() && inside_from(samples, cutoff, i) ==> low <= (#[trigger] samples[i]).1
            &&& exists|i: int| 0 <= i < samples.len() && inside_from(samples, cutoff, i) && low == samples[i].1
        }),
{
    let cutoff = sub_or_zero(samples.last().0, window);
    let n = samples.len() as int;
    lemma_recent_start(samples, cutoff, n);
    let start = recent_start(samples, cutoff, n);
    assert(start < n);
    let run = values(samples.subrange(start, n));
    lemma_min_max(run);
    let low = seq_min(run);
    assert forall|i: int| 0 <= i < samples.len() && inside_from(samples, cutoff, i) implies low <= (#[trigger] samples[i]).1 by {
        if i < start {
            assert(samples[start - 1].0 >= cutoff);
        }
        assert(run[i - start] == samples[i].1);
    }
    let k = choose|k: int| 0 <= k < run.len() && run[k] == low;
    assert(run[k] == samples[start + k].1);
    assert(inside_from(samples, cutoff, start + k));
}

/// The smallest value among the newest samples taken no more than `window`
/// milliseconds before the newest one.
pub open spec fn low_water(samples: Seq<(u64, i64)>, window: u64) -> Option<i64> {
    if samples.len() == 0 {
        None
    } else {
        let start = recent_start(samples, sub_or_zero(samples.last().0, window), samples.len() as int);
        Some(seq_min(values(samples.subrange(start, samples.len() as int))))
    }
}

/// The points `History::points` draws: for each of the newest `count`
/// samples, how long before the newest it was taken, negated, and its value.
pub open spec fn chart_points(samples: Seq<(u64, i64)>, count: int) -> Seq<(i64, i64)> {
    if samples.len() == 0 {
        Seq::empty()
    } else {
        let skip = if count < samples.len() { samples.len() - count } else { 0 };
        let newest = samples.last().0;
        Seq::new(
            (samples.len() - skip) as nat,
            |i: int| ((-age(newest, samples[skip + i].0)) as i64, samples[skip + i].1),
        )
    }
}

/// `a - b`, or zero when `b` is the larger.
pub open spec fn sub_or_zero(a: u64, b: u64) -> u64 {
    if a >= b { (a - b) as u64 } else { 0 }
}

/// How long before `newest` a sample at `at` was taken, in milliseconds,
/// held within `i64`.
pub open spec fn age(newest: u64, at: u64) -> i64 {
    let elapsed = if at <= newest { newest - at } else { 0 };
    if elapsed > i64::MAX { i64::MAX } else { elapsed as i64 }
}

proof fn lemma_min_prepend(s: Seq<i64>, t: Seq<i64>, v: i64)
    requires
        t.len() > 0,
        s == seq![v] + t,
    ensures
        seq_min(s) == if v < seq_min(t) { v } else { seq_min(t) },
{
    lemma_min_max(s);
    lemma_min_max(t);
    assert forall|i: int| 0 <= i < t.len() implies seq_min(s) <= #[trigger] t[i] by {
        assert(t[i] == s[i + 1]);
    }
    let k = choose|i: int| 0 <= i < s.len() && s[i] == seq_min(s);
    if k > 0 {
        assert(s[k] == t[k - 1]);
    }
    let m = choose|i: int| 0 <= i < t.len() && t[i] == seq_min(t);
    assert(s[m + 1] == t[m]);
    assert(s[0] == v);
}


/// The text of an optional string.
pub open spec fn opt_text(value: Option<String>) -> Option<Seq<char>> {
    match value {
        Some(text) => Some(text@),
        None => None,
    }
}

/// A copy of an optional string.
pub fn copy_opt(value: &Option<String>) -> (r: Option<String>)
    ensures
        opt_text(r) == opt_text(*value),
{
    match value {
        Some(text) => Some(text.clone()),
        None => None,
    }
}

/// Tick rate, averaged over one or more windows.
#[derive(Debug, Clone, PartialEq)]
pub struct TpsReading {
    /// Window label and rate, e.g. `("1m", 19_980_000)`, oldest window last.
    pub windows: Vec<(String, i64)>,
}

impl TpsReading {
    /// The shortest window's rate, which is the most responsive one.
    pub fn current(&self) -> (r: Option<i64>)
        ensures
            r == if self.windows@.len() == 0 { None } else { Some(self.windows@[0].1) },
    {
        if self.windows.len() == 0 {
            None
        } else {
            Some(self.windows[0].1)
        }
    }

    /// The rate of the first window carrying `label`.
    pub fn window(&self, label: &str) -> (r: Option<i64>)
        ensures
            r.is_none() <==> forall|i: int|
                0 <= i < self.windows@.len() ==> (#[trigger] self.windows@[i]).0@ != label@,
            r.is_some() ==> exists|i: int|
                0 <= i < self.windows@.len() && (#[trigger] self.windows@[i]).0@ == label@
                    && r == Some(self.windows@[i].1) && forall|j: int|
                    0 <= j < i ==> (#[trigger] self.windows@[j]).0@ != label@,
    {
        let wanted = chars_of(label);
        let mut i: usize = 0;
        while i < self.windows.len()
            invariant
                i <= self.windows@.len(),
                wanted@ == label@,
                forall|j: int| 0 <= j < i ==> (#[trigger] self.windows@[j]).0@ != label@,
            decreases self.windows@.len() - i,
        {
            let name = chars_of(self.windows[i].0.as_str());
            if same_chars(&name, &wanted) {
                return Some(self.windows[i].1);
            }
            i += 1;
        }
        None
    }
}

impl Default for TpsReading {
    fn default() -> (r: TpsReading)
        ensures
            r.windows@.len() == 0,
    {
        TpsReading { windows: Vec::new() }
    }
}

/// Whether two runs of characters are the same.
pub fn same_chars(a: &Vec<char>, b: &Vec<char>) -> (r: bool)
    ensures
        r == (a@ == b@),
{
    if a.len() != b.len() {
        return false;
    }
    let mut i: usize = 0;
    while i < a.len()
        invariant
            a.len() == b.len(),
            i <= a.len(),
            forall|j: int| 0 <= j < i ==> a@[j] == b@[j],
        decreases a.len() - i,
    {
        if a[i] != b[i] {
            return false;
        }
        i += 1;
    }
    assert(a@ =~= b@);
    true
}

/// Milliseconds per tick over one window, as Paper and Folia report it.
#[derive(Debug, Clone, Copy, PartialEq, Eq, Structural)]
pub struct MsptWindow {
    pub average: i64,
    pub minimum: i64,
    pub maximum: i64,
}

/// Tick durations, averaged over one or more windows.
#[derive(Debug, Clone, PartialEq)]
pub struct MsptReading {
    /// Window label and durations, shortest window first.
    pub windows: Vec<(String, MsptWindow)>,
}

impl MsptReading {
    pub fn current(&self) -> (r: Option<MsptWindow>)
        ensures
            r == if self.windows@.len() == 0 { None } else { Some(self.windows@[0].1) },
    {
        if self.windows.len() == 0 {
            None
        } else {
            Some(self.windows[0].1)
        }
    }
}

impl Default for MsptReading {
    fn default() -> (r: MsptReading)
        ensures
            r.windows@.len() == 0,
    {
        MsptReading { windows: Vec::new() }
    }
}

/// One Folia region: an independently ticking slice of a world.
#[derive(Debug, PartialEq)]
pub struct Region {
    /// World the region belongs to, when the server names it.
    pub world: Option<String>,
    /// Centre chunk of the region, when the server reports it.
    pub chunk: Option<(i64, i64)>,
    pub tps: Option<i64>,
    pub mspt: Option<i64>,
    /// Share of the tick budget consumed, [`UNIT`] meaning all of it; occasionally above.
    pub utilisation: Option<i64>,
    pub players: Option<u32>,
    pub entities: Option<u32>,
    pub chunks: Option<u32>,
}

/// The table label of a region with this world name and centre chunk.
pub open spec fn region_label(world: Option<Seq<char>>, chunk: Option<(i64, i64)>) -> Seq<char> {
    match (world, chunk) {
        (Some(world), Some((x, z))) => world + seq![' ', '('] + signed_decimal(x as int) + seq![',', ' ']
            + signed_decimal(z as int) + seq![')'],
        (Some(world), None) => world,
        (None, Some((x, z))) => seq!['('] + signed_decimal(x as int) + seq![',', ' '] + signed_decimal(
            z as int,
        ) + seq![')'],
        (None, None) => seq!['r', 'e', 'g', 'i', 'o', 'n'],
    }
}

/// How close a region is to falling behind, from whichever of utilisation,
/// tick time, or tick rate the server reported, in that order of preference.
/// A tick takes 50ms at full speed, and a rate of 20 is full speed; the
/// rate-based figure is capped at four times the budget.
pub open spec fn pressure_of(utilisation: Option<i64>, mspt: Option<i64>, tps: Option<i64>) -> int {
    match utilisation {
        Some(utilisation) => utilisation as int,
        None => match mspt {
            Some(mspt) => mspt / 50,
            None => match tps {
                Some(tps) if tps > 0 => {
                    let rate = 20 * UNIT * UNIT / (tps as int);
                    if rate < 4 * UNIT { rate } else { 4 * UNIT }
                },
                _ => 0,
            },
        },
    }
}

impl Region {
    pub open spec fn spec_pressure(&self) -> int {
        pressure_of(self.utilisation, self.mspt, self.tps)
    }

    pub open spec fn spec_label(&self) -> Seq<char> {
        region_label(opt_text(self.world), self.chunk)
    }

    /// Whether `other` holds the same reading as `self`.
    pub open spec fn same(&self, other: &Region) -> bool {
        &&& opt_text(self.world) == opt_text(other.world)
        &&& self.chunk == other.chunk
        &&& self.tps == other.tps
        &&& self.mspt == other.mspt
        &&& self.utilisation == other.utilisation
        &&& self.players == other.players
        &&& self.entities == other.entities
        &&& self.chunks == other.chunks
    }

    /// A stable label for tables and charts.
    pub fn label(&self) -> (r: String)
        ensures
            r@ == self.spec_label(),
    {
        let mut out: Vec<char> = Vec::new();
        match (&self.world, self.chunk) {
            (Some(world), Some((x, z))) => {
                push_all(&mut out, &chars_of(world.as_str()));
                out.push(' ');
                out.push('(');
                push_signed(&mut out, x as i128);
                out.push(',');
                out.push(' ');
                push_signed(&mut out, z as i128);
                out.push(')');
            },
            (Some(world), None) => {
                push_all(&mut out, &chars_of(world.as_str()));
            },
            (None, Some((x, z))) => {
                out.push('(');
                push_signed(&mut out, x as i128);
                out.push(',');
                out.push(' ');
                push_signed(&mut out, z as i128);
                out.push(')');
            },
            (None, None) => {
                out.push('r');
                out.push('e');
                out.push('g');
                out.push('i');
                out.push('o');
                out.push('n');
            },
        }
        assert(out@ =~= self.spec_label());
        string_from(&out)
    }

    /// How close this region is to falling behind, 0 (idle) upwards, in [`UNIT`]s.
    pub fn pressure(&self) -> (r: i64)
        ensures
            r == self.spec_pressure(),
    {
        if let Some(utilisation) = self.utilisation {
            return utilisation;
        }
        if let Some(mspt) = self.mspt {
            return floor_div(mspt as i128, 50) as i64;
        }
        match self.tps {
            Some(tps) if tps > 0 => {
                let rate = 20 * (UNIT as i128) * (UNIT as i128) / (tps as i128);
                if rate < 4 * (UNIT as i128) {
                    rate as i64
                } else {
                    4 * UNIT
                }
            },
            _ => 0,
        }
    }
}

impl Clone for Region {
    fn clone(&self) -> (r: Region)
        ensures
            r.same(self),
    {
        Region {
            world: copy_opt(&self.world),
            chunk: self.chunk,
            tps: self.tps,
            mspt: self.mspt,
            utilisation: self.utilisation,
            players: self.players,
            entities: self.entities,
            chunks: self.chunks,
        }
    }
}

impl Default for Region {
    fn default() -> (r: Region)
        ensures
            r.world.is_none() && r.chunk.is_none() && r.tps.is_none() && r.mspt.is_none()
                && r.utilisation.is_none() && r.players.is_none() && r.entities.is_none()
                && r.chunks.is_none(),
    {
        Region {
            world: None,
            chunk: None,
            tps: None,
            mspt: None,
            utilisation: None,
            players: None,
            entities: None,
            chunks: None,
        }
    }
}

/// The server's own account of its regions.
#[derive(Debug)]
pub struct RegionReport {
    pub regions: Vec<Region>,
    /// Region count as reported, which may exceed the number detailed above.
    pub total: Option<u32>,
    /// Threads the server dedicates to ticking regions.
    pub threads: Option<u32>,
}

impl RegionReport {
    /// The region under most pressure; the last of several that tie.
    pub fn worst(&self) -> (r: Option<&Region>)
        ensures
            r.is_none() <==> self.regions@.len() == 0,
            r.is_some() ==> exists|k: int|
                0 <= k < self.regions@.len() && *r.unwrap() == self.regions@[k] && (forall|j: int|
                    0 <= j < self.regions@.len() ==> (#[trigger] self.regions@[j]).spec_pressure()
                        <= self.regions@[k].spec_pressure()) && (forall|j: int|
                    k < j < self.regions@.len() ==> (#[trigger] self.regions@[j]).spec_pressure()
                        < self.regions@[k].spec_pressure()),
    {
        let len = self.regions.len();
        if len == 0 {
            return None;
        }
        let mut best: usize = 0;
        let mut best_pressure = self.regions[0].pressure();
        let mut i: usize = 1;
        while i < len
            invariant
                1 <= i <= len,
                len == self.regions@.len(),
                best < i,
                best_pressure == self.regions@[best as int].spec_pressure(),
                forall|j: int| 0 <= j < i ==> (#[trigger] self.regions@[j]).spec_pressure() <= best_pressure,
                forall|j: int| best < j < i ==> (#[trigger] self.regions@[j]).spec_pressure() < best_pressure,
            decreases len - i,
        {
            let pressure = self.regions[i].pressure();
            if pressure >= best_pressure {
                best = i;
                best_pressure = pressure;
            }
            i += 1;
        }
        Some(&self.regions[best])
    }
}

impl Default for RegionReport {
    fn default() -> (r: RegionReport)
        ensures
            r.regions@.len() == 0 && r.total.is_none() && r.threads.is_none(),
    {
        RegionReport { regions: Vec::new(), total: None, threads: None }
    }
}

/// Who is connected.
#[derive(Debug, Clone, PartialEq)]
pub struct Players {
    pub online: u32,
    pub max: Option<u32>,
    pub names: Vec<String>,
}

impl Default for Players {
    fn default() -> (r: Players)
        ensures
            r.online == 0 && r.max.is_none() && r.names@.len() == 0,
    {
        Players { online: 0, max: None, names: Vec::new() }
    }
}

/// CPU, memory, and lifetime of the server process.
#[derive(Debug, Clone, Copy)]
pub struct ProcessStats {
    pub pid: u32,
    /// CPU use as a percentage of one core, in [`UNIT`]s, so `400 * UNIT` means
    /// four cores busy.
    pub cpu_percent: i64,
    /// Resident set size in bytes.
    pub rss: u64,
    /// Virtual size in bytes.
    pub virtual_size: u64,
    pub threads: Option<u32>,
    /// Seconds since the process started.
    pub uptime: u64,
    /// Cores visible to the machine, for normalising `cpu_percent`.
    pub cores: usize,
    /// System-wide load averages in [`UNIT`]s, where the platform provides them.
    pub load_average: Option<(i64, i64, i64)>,
    /// Memory used across the whole machine, and its total.
    pub system_memory: (u64, u64),
}

impl ProcessStats {
    /// CPU use as a share of the whole machine, [`UNIT`] meaning every core busy.
    pub fn cpu_fraction(&self) -> (r: i64)
        ensures
            self.cores == 0 ==> r == 0,
            self.cores > 0 ==> r == (self.cpu_percent as int) / (100 * self.cores as int),
    {
        if self.cores == 0 {
            return 0;
        }
        let whole = 100 * (self.cores as i128);
        floor_div(self.cpu_percent as i128, whole) as i64
    }
}

/// Java heap occupancy and collector activity.
#[derive(Debug, Clone)]
pub struct HeapStats {
    /// Bytes in use at the moment of sampling.
    pub used: Option<u64>,
    /// Bytes the JVM has reserved from the operating system.
    pub committed: Option<u64>,
    /// The `-Xmx` ceiling.
    pub max: Option<u64>,
    /// Occupancy after the most recent collection: the number that says whether
    /// the server is genuinely running out of room.
    pub after_gc: Option<u64>,
    /// Whether `after_gc` was observed right after a collection, or inferred
    /// from the heap's low-water mark.
    pub after_gc_measured: bool,
    /// Young and full collection counts since the JVM started.
    pub young_collections: Option<u64>,
    pub full_collections: Option<u64>,
    /// Total time spent collecting since the JVM started, in [`UNIT`]s of a second.
    pub gc_seconds: Option<i64>,
    /// Share of recent wall-clock time spent collecting, 0 to [`UNIT`].
    pub gc_load: Option<i64>,
    /// Non-heap (metaspace and friends) usage in bytes.
    pub non_heap: Option<u64>,
}

impl HeapStats {
    /// Occupancy after the last collection as a share of the ceiling, in
    /// [`UNIT`]s, held within `i64`.
    pub fn pressure(&self) -> (r: Option<i64>)
        ensures
            r.is_some() <==> (self.after_gc.is_some() && self.max.is_some() && self.max.unwrap() > 0),
            r.is_some() ==> ({
                let share = (self.after_gc.unwrap() as int) * UNIT / (self.max.unwrap() as int);
                r.unwrap() == if share > i64::MAX { i64::MAX as int } else { share }
            }),
    {
        let after_gc = match self.after_gc {
            Some(value) => value,
            None => return None,
        };
        let max = match self.max {
            Some(value) => value,
            None => return None,
        };
        if max == 0 {
            return None;
        }
        let share = (after_gc as u128) * (UNIT as u128) / (max as u128);
        if share > i64::MAX as u128 {
            Some(i64::MAX)
        } else {
            Some(share as i64)
        }
    }
}

impl Default for HeapStats {
    fn default() -> (r: HeapStats)
        ensures
            r.used.is_none() && r.committed.is_none() && r.max.is_none() && r.after_gc.is_none()
                && !r.after_gc_measured && r.young_collections.is_none()
                && r.full_collections.is_none() && r.gc_seconds.is_none() && r.gc_load.is_none()
                && r.non_heap.is_none(),
    {
        HeapStats {
            used: None,
            committed: None,
            max: None,
            after_gc: None,
            after_gc_measured: false,
            young_collections: None,
            full_collections: None,
            gc_seconds: None,
            gc_load: None,
            non_heap: None,
        }
    }
}

/// One world folder's footprint.
#[derive(Debug, Clone)]
pub struct WorldUsage {
    pub name: String,
    pub path: String,
    pub bytes: u64,
    pub files: u64,
    /// Bytes held by `region/`, `entities/`, and `poi/` specifically.
    pub region_bytes: u64,
    pub entity_bytes: u64,
    pub poi_bytes: u64,
    /// Whether the walk finished or was cut short by an unreadable directory.
    pub partial: bool,
}

/// Sum of the sizes of a run of worlds.
pub open spec fn total_bytes(worlds: Seq<WorldUsage>) -> int
    decreases worlds.len(),
{
    if worlds.len() == 0 {
        0
    } else {
        total_bytes(worlds.drop_last()) + worlds.last().bytes
    }
}

/// Disk footprint of every world, plus the free space they share.
#[derive(Debug, Clone)]
pub struct DiskUsage {
    pub worlds: Vec<WorldUsage>,
    /// Free and total bytes on the filesystem holding the first world.
    pub free: Option<(u64, u64)>,
    /// When the scan finished, in seconds since the Unix epoch.
    pub scanned_at: Option<u64>,
    pub scanning: bool,
}

impl DiskUsage {
    pub fn total(&self) -> (r: u64)
        requires
            total_bytes(self.worlds@) <= u64::MAX,
        ensures
            r == total_bytes(self.worlds@),
    {
        let mut sum: u64 = 0;
        let mut i: usize = 0;
        while i < self.worlds.len()
            invariant
                i <= self.worlds@.len(),
                sum == total_bytes(self.worlds@.take(i as int)),
                total_bytes(self.worlds@) <= u64::MAX,
            decreases self.worlds@.len() - i,
        {
            proof {
                assert(self.worlds@.take(i + 1).drop_last() =~= self.worlds@.take(i as int));
                lemma_total_prefix(self.worlds@, i + 1);
            }
            sum = sum + self.worlds[i].bytes;
            i += 1;
        }
        assert(self.worlds@.take(i as int) =~= self.worlds@);
        sum
    }
}

proof fn lemma_total_prefix(worlds: Seq<WorldUsage>, k: int)
    requires
        0 <= k <= worlds.len(),
    ensures
        total_bytes(worlds.take(k)) <= total_bytes(worlds),
    decreases worlds.len() - k,
{
    if k < worlds.len() {
        lemma_total_prefix(worlds, k + 1);
        assert(worlds.take(k + 1).drop_last() =~= worlds.take(k));
    } else {
        assert(worlds.take(k) =~= worlds);
    }
}

impl Default for DiskUsage {
    fn default() -> (r: DiskUsage)
        ensures
            r.worlds@.len() == 0 && r.free.is_none() && r.scanned_at.is_none() && !r.scanning,
    {
        DiskUsage { worlds: Vec::new(), free: None, scanned_at: None, scanning: false }
    }
}

/// What the server says it is.
#[derive(Debug, Clone, PartialEq)]
pub struct ServerIdentity {
    /// `Folia`, `Paper`, and so on, when recognisable.
    pub flavour: Option<String>,
    pub minecraft_version: Option<String>,
    /// The full, unparsed version line.
    pub raw: Option<String>,
}

/// How a server identity reads in the header.
pub open spec fn identity_summary(flavour: Option<Seq<char>>, version: Option<Seq<char>>) -> Seq<char> {
    match (flavour, version) {
        (Some(flavour), Some(version)) => flavour + seq![' '] + version,
        (Some(flavour), None) => flavour,
        (None, Some(version)) => version,
        (None, None) => seq!['u', 'n', 'k', 'n', 'o', 'w', 'n'],
    }
}

impl ServerIdentity {
    pub fn is_folia(&self) -> (r: bool)
        ensures
            r == match self.flavour {
                Some(flavour) => eq_ignoring_ascii_case(flavour@, seq!['f', 'o', 'l', 'i', 'a']),
                None => false,
            },
    {
        match &self.flavour {
            Some(flavour) => {
                let folia = vec!['f', 'o', 'l', 'i', 'a'];
                same_ignoring_ascii_case(&chars_of(flavour.as_str()), &folia)
            },
            None => false,
        }
    }

    pub fn summary(&self) -> (r: String)
        ensures
            r@ == identity_summary(opt_text(self.flavour), opt_text(self.minecraft_version)),
    {
        let mut out: Vec<char> = Vec::new();
        match (&self.flavour, &self.minecraft_version) {
            (Some(flavour), Some(version)) => {
                push_all(&mut out, &chars_of(flavour.as_str()));
                out.push(' ');
                push_all(&mut out, &chars_of(version.as_str()));
            },
            (Some(flavour), None) => push_all(&mut out, &chars_of(flavour.as_str())),
            (None, Some(version)) => push_all(&mut out, &chars_of(version.as_str())),
            (None, None) => {
                out.push('u');
                out.push('n');
                out.push('k');
                out.push('n');
                out.push('o');
                out.push('w');
                out.push('n');
            },
        }
        assert(out@ =~= identity_summary(opt_text(self.flavour), opt_text(self.minecraft_version)));
        string_from(&out)
    }
}

impl Default for ServerIdentity {
    fn default() -> (r: ServerIdentity)
        ensures
            r.flavour.is_none() && r.minecraft_version.is_none() && r.raw.is_none(),
    {
        ServerIdentity { flavour: None, minecraft_version: None, raw: None }
    }
}

/// Connection state of the RCON link.
#[derive(Debug, Clone, PartialEq, Eq)]
pub enum Link {
    Connecting,
    Up,
    Down(String),
}

impl Link {
    pub fn is_up(&self) -> (r: bool)
        ensures
            r == (*self is Up),
    {
        match self {
            Link::Up => true,
            _ => false,
        }
    }
}

impl Default for Link {
    fn default() -> (r: Link)
        ensures
            r is Connecting,
    {
        Link::Connecting
    }
}

} // verus!
