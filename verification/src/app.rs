//! Application state: everything the interface draws, and how keys change it.

use vstd::prelude::*;

use std::collections::VecDeque;
use std::sync::Arc;
use std::time::{Duration, Instant};

use crate::clock::{elapsed_since, instant_now, millis_since};
use crate::config::{Config, words_text};
use crate::metrics::{
    DiskUsage, HeapStats, History, Link, MsptReading, Players, ProcessStats, Region, RegionReport,
    ServerIdentity, TpsReading, UNIT,
};
use crate::source::{Kind, LogEntry, Update};
use crate::text::{is_space, space, string_from, string_between, chars_of, trim, trim_bounds};

verus! {

/// The screens mctop offers.
///
/// The split exists because a Folia server can hold hundreds of regions, and a
/// wall of them would bury the handful of numbers an operator actually watches.
/// Overview answers "is the server healthy"; the rest answer "why not".
#[derive(Debug, Clone, Copy, PartialEq, Eq, PartialOrd, Ord, Structural)]
pub enum Tab {
    Overview,
    Regions,
    System,
    Worlds,
    Console,
}

/// Position of a tab in the tab bar, counting from zero.
pub open spec fn tab_index(tab: Tab) -> int {
    match tab {
        Tab::Overview => 0,
        Tab::Regions => 1,
        Tab::System => 2,
        Tab::Worlds => 3,
        Tab::Console => 4,
    }
}

/// The tab at a position of the tab bar.
pub open spec fn tab_at(index: int) -> Tab {
    if index == 0 {
        Tab::Overview
    } else if index == 1 {
        Tab::Regions
    } else if index == 2 {
        Tab::System
    } else if index == 3 {
        Tab::Worlds
    } else {
        Tab::Console
    }
}

/// The tab `delta` places along from `tab`, wrapping round at either end.
pub open spec fn tab_step(tab: Tab, delta: int) -> Tab {
    tab_at((tab_index(tab) + delta) % 5)
}

proof fn lemma_wrap_mod(d: int, r: int)
    requires
        d >= 0 ==> r == d % 5,
        d < 0 ==> r == (if (-d) % 5 == 0 { 0 } else { 5 - (-d) % 5 }),
    ensures
        r == d % 5,
        0 <= r < 5,
{
    if d < 0 {
        let q = (-d) % 5;
        let k = (-d) / 5;
        assert(-d == 5 * k + q) by (nonlinear_arith)
            requires q == (-d) % 5, k == (-d) / 5;
        if q == 0 {
            assert(d == 5 * (-k));
            assert(d % 5 == 0) by (nonlinear_arith)
                requires d == 5 * (-k);
        } else {
            assert(d == 5 * (-k - 1) + (5 - q));
            assert(d % 5 == 5 - q) by (nonlinear_arith)
                requires d == 5 * (-k - 1) + (5 - q), 0 < q < 5;
        }
    }
}

proof fn lemma_add_mod(i: int, d: int, r: int)
    requires
        r == d % 5,
        0 <= i,
        0 <= r,
    ensures
        (i + r) % 5 == (i + d) % 5,
{
    let k = d / 5;
    assert(d == 5 * k + r) by (nonlinear_arith)
        requires r == d % 5, k == d / 5;
    assert((i + d) % 5 == (i + r) % 5) by (nonlinear_arith)
        requires d == 5 * k + r;
}

impl Tab {
    pub const ALL: [Tab; 5] = [Tab::Overview, Tab::Regions, Tab::System, Tab::Worlds, Tab::Console];

    pub fn title(self) -> (r: &'static str)
        ensures
            r@ == match self {
                Tab::Overview => "Overview"@,
                Tab::Regions => "Regions"@,
                Tab::System => "System"@,
                Tab::Worlds => "Worlds"@,
                Tab::Console => "Console"@,
            },
    {
        match self {
            Tab::Overview => "Overview",
            Tab::Regions => "Regions",
            Tab::System => "System",
            Tab::Worlds => "Worlds",
            Tab::Console => "Console",
        }
    }

    pub fn index(self) -> (r: usize)
        ensures
            r == tab_index(self),
            tab_at(r as int) == self,
    {
        match self {
            Tab::Overview => 0,
            Tab::Regions => 1,
            Tab::System => 2,
            Tab::Worlds => 3,
            Tab::Console => 4,
        }
    }

    /// Tab at a position of the tab bar; positions past the end give the last.
    pub fn at(index: usize) -> (r: Tab)
        ensures
            r == tab_at(index as int),
    {
        if index == 0 {
            Tab::Overview
        } else if index == 1 {
            Tab::Regions
        } else if index == 2 {
            Tab::System
        } else if index == 3 {
            Tab::Worlds
        } else {
            Tab::Console
        }
    }

    pub fn step(self, delta: isize) -> (r: Tab)
        ensures
            r == tab_step(self, delta as int),
    {
        let index = self.index() as i128;
        let d = delta as i128;
        let r: i128 = if d >= 0 {
            d % 5
        } else {
            let q = (-d) % 5;
            if q == 0 {
                0
            } else {
                5 - q
            }
        };
        proof {
            lemma_wrap_mod(d as int, r as int);
        }
        let wrapped = (index + r) % 5;
        proof {
            lemma_add_mod(index as int, d as int, r as int);
        }
        Tab::at(wrapped as usize)
    }
}


/// How the region table is ordered.
#[derive(Debug, Clone, Copy, PartialEq, Eq, Structural)]
pub enum RegionSort {
    Pressure,
    Tps,
    Mspt,
    Players,
    Entities,
    Chunks,
    World,
}

/// The order `s` cycles through the region sorts.
pub open spec fn sort_after(sort: RegionSort) -> RegionSort {
    match sort {
        RegionSort::Pressure => RegionSort::Tps,
        RegionSort::Tps => RegionSort::Mspt,
        RegionSort::Mspt => RegionSort::Players,
        RegionSort::Players => RegionSort::Entities,
        RegionSort::Entities => RegionSort::Chunks,
        RegionSort::Chunks => RegionSort::World,
        RegionSort::World => RegionSort::Pressure,
    }
}

impl RegionSort {
    pub fn label(self) -> (r: &'static str)
        ensures
            r@ == match self {
                RegionSort::Pressure => "load"@,
                RegionSort::Tps => "TPS"@,
                RegionSort::Mspt => "MSPT"@,
                RegionSort::Players => "players"@,
                RegionSort::Entities => "entities"@,
                RegionSort::Chunks => "chunks"@,
                RegionSort::World => "world"@,
            },
    {
        match self {
            RegionSort::Pressure => "load",
            RegionSort::Tps => "TPS",
            RegionSort::Mspt => "MSPT",
            RegionSort::Players => "players",
            RegionSort::Entities => "entities",
            RegionSort::Chunks => "chunks",
            RegionSort::World => "world",
        }
    }

    pub fn next(self) -> (r: RegionSort)
        ensures
            r == sort_after(self),
    {
        match self {
            RegionSort::Pressure => RegionSort::Tps,
            RegionSort::Tps => RegionSort::Mspt,
            RegionSort::Mspt => RegionSort::Players,
            RegionSort::Players => RegionSort::Entities,
            RegionSort::Entities => RegionSort::Chunks,
            RegionSort::Chunks => RegionSort::World,
            RegionSort::World => RegionSort::Pressure,
        }
    }
}

/// What the interface asks of the outside world after handling a key.
#[derive(Debug, Clone, PartialEq, Eq)]
pub enum Action {
    /// Nothing for the caller to do.
    Nothing,
    Quit,
    Refresh,
    SetPaused(bool),
    /// Run this command on the server.
    Send(String),
}

/// A single line of editable text.
///
/// Held as characters rather than bytes so that moving the cursor cannot land
/// between the halves of a multi-byte character — player names and chat
/// messages are not all ASCII.
#[derive(Debug, PartialEq, Eq)]
pub struct Input {
    chars: Vec<char>,
    /// Where the next character goes, counted in characters, `0..=len`.
    cursor: usize,
}

/// The start of the word that ends at `end`, as Ctrl-W finds it: back over
/// any whitespace, then back over the characters that are not whitespace.
pub open spec fn word_start(chars: Seq<char>, end: int) -> int
    decreases end,
{
    if end > 0 && is_space(chars[end - 1]) {
        word_start(chars, end - 1)
    } else {
        word_body_start(chars, end)
    }
}

pub open spec fn word_body_start(chars: Seq<char>, end: int) -> int
    decreases end,
{
    if end > 0 && !is_space(chars[end - 1]) {
        word_body_start(chars, end - 1)
    } else {
        end
    }
}

proof fn lemma_word_body_start_bounds(chars: Seq<char>, end: int)
    requires
        0 <= end <= chars.len(),
    ensures
        0 <= word_body_start(chars, end) <= end,
    decreases end,
{
    if end > 0 && !is_space(chars[end - 1]) {
        lemma_word_body_start_bounds(chars, end - 1);
    }
}

proof fn lemma_word_start_bounds(chars: Seq<char>, end: int)
    requires
        0 <= end <= chars.len(),
    ensures
        0 <= word_start(chars, end) <= end,
    decreases end,
{
    if end > 0 && is_space(chars[end - 1]) {
        lemma_word_start_bounds(chars, end - 1);
    } else {
        lemma_word_body_start_bounds(chars, end);
    }
}

impl View for Input {
    type V = (Seq<char>, nat);

    closed spec fn view(&self) -> (Seq<char>, nat) {
        (self.chars@, self.cursor as nat)
    }
}

impl Input {
    /// The cursor never leaves the text.
    #[verifier::type_invariant]
    spec fn cursor_in_text(self) -> bool {
        self.cursor <= self.chars.len()
    }

    /// Move the text out, leaving an empty line behind.
    fn take_parts(&mut self) -> (r: (Vec<char>, usize))
        ensures
            r.0@ == old(self)@.0,
            r.1 == old(self)@.1,
            r.1 <= r.0@.len(),
    {
        proof {
            use_type_invariant(&*self);
        }
        let cursor = self.cursor;
        self.cursor = 0;
        let mut chars: Vec<char> = Vec::new();
        std::mem::swap(&mut chars, &mut self.chars);
        (chars, cursor)
    }

    fn put_parts(&mut self, chars: Vec<char>, cursor: usize)
        requires
            cursor <= chars@.len(),
        ensures
            final(self)@ == (chars@, cursor as nat),
    {
        self.cursor = 0;
        self.chars = chars;
        self.cursor = cursor;
    }

    /// An empty line.
    pub fn new() -> (r: Input)
        ensures
            r@ == (Seq::<char>::empty(), 0nat),
    {
        Input { chars: Vec::new(), cursor: 0 }
    }

    pub fn text(&self) -> (r: String)
        ensures
            r@ == self@.0,
    {
        string_from(&self.chars)
    }

    pub fn is_empty(&self) -> (r: bool)
        ensures
            r == (self@.0.len() == 0),
    {
        self.chars.len() == 0
    }

    /// Cursor offset in characters, for placing the terminal's own cursor.
    pub fn cursor(&self) -> (r: usize)
        ensures
            r == self@.1,
            r <= self@.0.len(),
    {
        proof {
            use_type_invariant(self);
        }
        self.cursor
    }

    pub fn set(&mut self, text: &str)
        ensures
            final(self)@ == (text@, text@.len()),
    {
        self.cursor = 0;
        self.chars = chars_of(text);
        self.cursor = self.chars.len();
    }

    pub fn clear(&mut self)
        ensures
            final(self)@ == (Seq::<char>::empty(), 0nat),
    {
        self.cursor = 0;
        self.chars = Vec::new();
    }

    pub fn insert(&mut self, ch: char)
        ensures
            final(self)@ == (old(self)@.0.insert(old(self)@.1 as int, ch), old(self)@.1 + 1),
    {
        proof {
            use_type_invariant(&*self);
        }
        let (mut chars, cursor) = self.take_parts();
        chars.insert(cursor, ch);
        let len = chars.len();
        self.put_parts(chars, cursor + 1);
    }

    pub fn backspace(&mut self)
        ensures
            old(self)@.1 > 0 ==> final(self)@ == (
                old(self)@.0.remove(old(self)@.1 - 1),
                (old(self)@.1 - 1) as nat,
            ),
            old(self)@.1 == 0 ==> final(self)@ == old(self)@,
    {
        proof {
            use_type_invariant(&*self);
        }
        if self.cursor > 0 {
            let (mut chars, cursor) = self.take_parts();
            chars.remove(cursor - 1);
            self.put_parts(chars, cursor - 1);
        }
    }

    pub fn delete(&mut self)
        ensures
            old(self)@.1 < old(self)@.0.len() ==> final(self)@ == (
                old(self)@.0.remove(old(self)@.1 as int),
                old(self)@.1,
            ),
            old(self)@.1 >= old(self)@.0.len() ==> final(self)@ == old(self)@,
    {
        proof {
            use_type_invariant(&*self);
        }
        if self.cursor < self.chars.len() {
            let (mut chars, cursor) = self.take_parts();
            chars.remove(cursor);
            self.put_parts(chars, cursor);
        }
    }

    /// Delete back to the start of the current word, as Ctrl-W does in a shell.
    pub fn delete_word(&mut self)
        ensures
            ({
                let start = word_start(old(self)@.0, old(self)@.1 as int);
                final(self)@ == (
                    old(self)@.0.subrange(0, start) + old(self)@.0.subrange(
                        old(self)@.1 as int,
                        old(self)@.0.len() as int,
                    ),
                    start as nat,
                )
            }),
    {
        proof {
            use_type_invariant(&*self);
        }
        let cursor = self.cursor;
        let mut end = cursor;
        while end > 0 && space(self.chars[end - 1])
            invariant
                end <= cursor <= self.chars.len(),
                word_start(self.chars@, cursor as int) == word_start(self.chars@, end as int),
            decreases end,
        {
            end -= 1;
        }
        while end > 0 && !space(self.chars[end - 1])
            invariant
                end <= cursor <= self.chars.len(),
                word_start(self.chars@, cursor as int) == word_body_start(self.chars@, end as int),
            decreases end,
        {
            end -= 1;
        }
        let ghost before = self.chars@;
        let mut kept: Vec<char> = Vec::new();
        let mut i: usize = 0;
        while i < end
            invariant
                end <= cursor <= before.len(),
                before == self.chars@,
                i <= end,
                kept@ == before.subrange(0, i as int),
            decreases end - i,
        {
            kept.push(self.chars[i]);
            i += 1;
        }
        let mut j: usize = cursor;
        while j < self.chars.len()
            invariant
                end <= cursor <= j <= before.len(),
                before == self.chars@,
                kept@ == before.subrange(0, end as int) + before.subrange(cursor as int, j as int),
            decreases before.len() - j,
        {
            kept.push(self.chars[j]);
            j += 1;
        }
        self.cursor = 0;
        self.chars = kept;
        self.cursor = end;
    }

    pub fn left(&mut self)
        ensures
            final(self)@ == (old(self)@.0, if old(self)@.1 > 0 { (old(self)@.1 - 1) as nat } else { 0nat }),
    {
        proof {
            use_type_invariant(&*self);
        }
        if self.cursor > 0 {
            self.cursor = self.cursor - 1;
        }
    }

    pub fn right(&mut self)
        ensures
            final(self)@ == (
                old(self)@.0,
                if old(self)@.1 < old(self)@.0.len() { old(self)@.1 + 1 } else { old(self)@.0.len() },
            ),
    {
        proof {
            use_type_invariant(&*self);
        }
        if self.cursor < self.chars.len() {
            self.cursor = self.cursor + 1;
        } else {
            self.cursor = self.chars.len();
        }
    }

    pub fn home(&mut self)
        ensures
            final(self)@ == (old(self)@.0, 0nat),
    {
        self.cursor = 0;
    }

    pub fn end(&mut self)
        ensures
            final(self)@ == (old(self)@.0, old(self)@.0.len()),
    {
        self.cursor = self.chars.len();
    }

    /// Take the text and leave the field empty.
    pub fn take(&mut self) -> (r: String)
        ensures
            r@ == old(self)@.0,
            final(self)@ == (Seq::<char>::empty(), 0nat),
    {
        let text = self.text();
        self.clear();
        text
    }
}

impl Clone for Input {
    fn clone(&self) -> (r: Input)
        ensures
            r@ == self@,
    {
        proof {
            use_type_invariant(self);
        }
        let chars = self.chars.clone();
        proof {
            assert(chars@ =~= self.chars@);
        }
        Input { chars, cursor: self.cursor }
    }
}

impl Default for Input {
    fn default() -> (r: Input)
        ensures
            r@ == (Seq::<char>::empty(), 0nat),
    {
        Input::new()
    }
}

/// A key press, kept independent of the terminal backend so that state changes
/// can be tested without a terminal.
#[derive(Debug, Clone, Copy, PartialEq, Eq, Structural)]
pub enum Key {
    Char(char),
    Ctrl(char),
    F(u8),
    Backspace,
    Delete,
    Tab,
    BackTab,
    Enter,
    Esc,
    Up,
    Down,
    Left,
    Right,
    PageUp,
    PageDown,
    Home,
    End,
    Other,
}


/// The values of `v` as integers.
pub open spec fn ints(v: Seq<i128>) -> Seq<int> {
    Seq::new(v.len(), |i: int| v[i] as int)
}

/// The values of `v` as integers.
pub open spec fn indices(v: Seq<usize>) -> Seq<int> {
    Seq::new(v.len(), |i: int| v[i] as int)
}

/// The code points of `s`.
pub open spec fn codes(s: Seq<char>) -> Seq<int> {
    Seq::new(s.len(), |i: int| (s[i] as u32) as int)
}

/// Lexicographic order on sequences of integers; a proper prefix comes first.
pub open spec fn lex_less(a: Seq<int>, b: Seq<int>) -> bool
    decreases a.len(),
{
    if a.len() == 0 {
        b.len() > 0
    } else if b.len() == 0 {
        false
    } else if a[0] < b[0] {
        true
    } else if a[0] > b[0] {
        false
    } else {
        lex_less(a.drop_first(), b.drop_first())
    }
}

proof fn lemma_lex_irreflexive(a: Seq<int>)
    ensures
        !lex_less(a, a),
    decreases a.len(),
{
    if a.len() > 0 {
        lemma_lex_irreflexive(a.drop_first());
    }
}

proof fn lemma_lex_transitive(a: Seq<int>, b: Seq<int>, c: Seq<int>)
    requires
        lex_less(a, b),
        lex_less(b, c),
    ensures
        lex_less(a, c),
    decreases a.len(),
{
    if a.len() > 0 && b.len() > 0 && c.len() > 0 && a[0] == b[0] && b[0] == c[0] {
        lemma_lex_transitive(a.drop_first(), b.drop_first(), c.drop_first());
    }
}

proof fn lemma_lex_total(a: Seq<int>, b: Seq<int>)
    ensures
        lex_less(a, b) || lex_less(b, a) || a == b,
    decreases a.len(),
{
    if a.len() > 0 && b.len() > 0 && a[0] == b[0] {
        lemma_lex_total(a.drop_first(), b.drop_first());
        if a.drop_first() == b.drop_first() {
            assert(a =~= seq![a[0]] + a.drop_first());
            assert(b =~= seq![b[0]] + b.drop_first());
        }
    } else if a.len() == 0 && b.len() == 0 {
        assert(a =~= b);
    }
}

/// Sort key of a missing-last, largest-first count.
pub open spec fn count_key(count: Option<u32>) -> int {
    match count {
        Some(count) => -(count as int),
        None => 1,
    }
}

/// What the region table orders by under `sort`: worst first for the
/// readings, largest first for the counts, alphabetical for the world.
pub open spec fn region_key(sort: RegionSort, region: Region) -> Seq<int> {
    match sort {
        RegionSort::Pressure => seq![-region.spec_pressure()],
        RegionSort::Tps => seq![
            match region.tps {
                Some(tps) => tps as int,
                None => i64::MAX as int,
            },
        ],
        RegionSort::Mspt => seq![
            -match region.mspt {
                Some(mspt) => mspt as int,
                None => 0,
            },
        ],
        RegionSort::Players => seq![count_key(region.players)],
        RegionSort::Entities => seq![count_key(region.entities)],
        RegionSort::Chunks => seq![count_key(region.chunks)],
        RegionSort::World => codes(region.spec_label()),
    }
}

pub open spec fn region_keys(sort: RegionSort, regions: Seq<Region>) -> Seq<Seq<int>> {
    regions.map_values(|region: Region| region_key(sort, region))
}

/// Whether entry `i` comes before entry `j` in a stable sort by `keys`.
pub open spec fn before(keys: Seq<Seq<int>>, i: int, j: int) -> bool {
    lex_less(keys[i], keys[j]) || (keys[i] == keys[j] && i < j)
}

/// `order` lists every index of `keys` once, in stable sorted order.
pub open spec fn arranged(order: Seq<int>, keys: Seq<Seq<int>>) -> bool {
    &&& order.len() == keys.len()
    &&& sorted_prefix(order, keys, keys.len() as int)
}

/// `order` holds indices below `bound`, strictly increasing under `before`.
pub open spec fn sorted_prefix(order: Seq<int>, keys: Seq<Seq<int>>, bound: int) -> bool {
    &&& forall|k: int| 0 <= k < order.len() ==> 0 <= #[trigger] order[k] < bound
    &&& forall|a: int, b: int|
        0 <= a < b < order.len() ==> before(keys, #[trigger] order[a], #[trigger] order[b])
}

proof fn lemma_before_transitive(keys: Seq<Seq<int>>, i: int, j: int, k: int)
    requires
        before(keys, i, j),
        before(keys, j, k),
    ensures
        before(keys, i, k),
{
    if lex_less(keys[i], keys[j]) && lex_less(keys[j], keys[k]) {
        lemma_lex_transitive(keys[i], keys[j], keys[k]);
    }
}

proof fn lemma_arranged_in_range(order: Seq<int>, keys: Seq<Seq<int>>, k: int)
    requires
        arranged(order, keys),
        0 <= k < order.len(),
    ensures
        0 <= order[k] < keys.len(),
{
}

proof fn lemma_single_key_order(keys: Seq<Seq<int>>, i: int, j: int, x: int, y: int)
    requires
        0 <= i < keys.len(),
        0 <= j < keys.len(),
        keys[i] == seq![x],
        keys[j] == seq![y],
        before(keys, i, j),
    ensures
        x <= y,
{
    assert(seq![x].drop_first() =~= Seq::<int>::empty());
    assert(seq![y].drop_first() =~= Seq::<int>::empty());
    if lex_less(seq![x], seq![y]) {
        assert(!lex_less(Seq::<int>::empty(), Seq::<int>::empty()));
    }
}

/// Which region of `regions` the `a`-th row of a table in `order` shows.
pub open spec fn row(regions: Seq<Region>, order: Seq<int>, a: int) -> Region {
    regions[order[a]]
}

/// Under the tick-time sort the table runs from the longest tick time down:
/// a row never has a shorter tick time than a row below it, a region that
/// reports none counting as none at all.
pub proof fn lemma_tick_time_sort_is_longest_first(regions: Seq<Region>, order: Seq<int>, a: int, b: int)
    requires
        arranged(order, region_keys(RegionSort::Mspt, regions)),
        0 <= a < b < order.len(),
    ensures
        (match row(regions, order, a).mspt { Some(m) => m as int, None => 0 }) >= (match row(
            regions,
            order,
            b,
        ).mspt {
            Some(m) => m as int,
            None => 0,
        }),
{
    let keys = region_keys(RegionSort::Mspt, regions);
    lemma_arranged_in_range(order, keys, a);
    lemma_arranged_in_range(order, keys, b);
    assert(before(keys, order[a], order[b]));
    lemma_single_key_order(
        keys,
        order[a],
        order[b],
        -(match regions[order[a]].mspt { Some(m) => m as int, None => 0 }),
        -(match regions[order[b]].mspt { Some(m) => m as int, None => 0 }),
    );
}

/// Under the tick-rate sort the table runs from the slowest region up: a row
/// never has a faster tick rate than a row below it, and a region that
/// reports none goes below every region that reports a rate short of the
/// largest a reading can hold.
pub proof fn lemma_tick_rate_sort_is_slowest_first(regions: Seq<Region>, order: Seq<int>, a: int, b: int)
    requires
        arranged(order, region_keys(RegionSort::Tps, regions)),
        0 <= a < b < order.len(),
    ensures
        (row(regions, order, a).tps is Some && row(regions, order, b).tps is Some) ==> row(
            regions,
            order,
            a,
        ).tps.unwrap() <= row(regions, order, b).tps.unwrap(),
        (row(regions, order, b).tps matches Some(lower) && lower < i64::MAX) ==> row(regions, order, a).tps is Some,
{
    let keys = region_keys(RegionSort::Tps, regions);
    lemma_arranged_in_range(order, keys, a);
    lemma_arranged_in_range(order, keys, b);
    lemma_single_key_order(
        keys,
        order[a],
        order[b],
        match regions[order[a]].tps { Some(t) => t as int, None => i64::MAX as int },
        match regions[order[b]].tps { Some(t) => t as int, None => i64::MAX as int },
    );
}

/// The order a count sort gives two rows: a row with a count comes above one
/// without, and of two with counts the larger comes first.
pub open spec fn larger_count_first(upper: Option<u32>, lower: Option<u32>) -> bool {
    lower matches Some(l) ==> (upper matches Some(u) && u >= l)
}

proof fn lemma_count_key_order(keys: Seq<Seq<int>>, i: int, j: int, x: Option<u32>, y: Option<u32>)
    requires
        0 <= i < keys.len(),
        0 <= j < keys.len(),
        keys[i] == seq![count_key(x)],
        keys[j] == seq![count_key(y)],
        before(keys, i, j),
    ensures
        larger_count_first(x, y),
{
    lemma_single_key_order(keys, i, j, count_key(x), count_key(y));
}

/// Under the entity sort the most crowded region comes first: a row with an
/// entity count is above every row without one, and never below a row with a
/// larger count.
pub proof fn lemma_entity_sort_is_most_first(regions: Seq<Region>, order: Seq<int>, a: int, b: int)
    requires
        arranged(order, region_keys(RegionSort::Entities, regions)),
        0 <= a < b < order.len(),
    ensures
        larger_count_first(row(regions, order, a).entities, row(regions, order, b).entities),
{
    let keys = region_keys(RegionSort::Entities, regions);
    lemma_arranged_in_range(order, keys, a);
    lemma_arranged_in_range(order, keys, b);
    lemma_count_key_order(keys, order[a], order[b], regions[order[a]].entities, regions[order[b]].entities);
}

/// Under the player sort the busiest region comes first, those without a
/// player count last.
pub proof fn lemma_player_sort_is_most_first(regions: Seq<Region>, order: Seq<int>, a: int, b: int)
    requires
        arranged(order, region_keys(RegionSort::Players, regions)),
        0 <= a < b < order.len(),
    ensures
        larger_count_first(row(regions, order, a).players, row(regions, order, b).players),
{
    let keys = region_keys(RegionSort::Players, regions);
    lemma_arranged_in_range(order, keys, a);
    lemma_arranged_in_range(order, keys, b);
    lemma_count_key_order(keys, order[a], order[b], regions[order[a]].players, regions[order[b]].players);
}

/// Under the chunk sort the largest region comes first, those without a
/// chunk count last.
pub proof fn lemma_chunk_sort_is_most_first(regions: Seq<Region>, order: Seq<int>, a: int, b: int)
    requires
        arranged(order, region_keys(RegionSort::Chunks, regions)),
        0 <= a < b < order.len(),
    ensures
        larger_count_first(row(regions, order, a).chunks, row(regions, order, b).chunks),
{
    let keys = region_keys(RegionSort::Chunks, regions);
    lemma_arranged_in_range(order, keys, a);
    lemma_arranged_in_range(order, keys, b);
    lemma_count_key_order(keys, order[a], order[b], regions[order[a]].chunks, regions[order[b]].chunks);
}

/// Under the world sort rows run in alphabetical order of their labels: a
/// row's label never starts with a later character than the label of a row
/// below it, and a label that is the start of another comes first.
pub proof fn lemma_world_sort_is_alphabetical(regions: Seq<Region>, order: Seq<int>, a: int, b: int)
    requires
        arranged(order, region_keys(RegionSort::World, regions)),
        0 <= a < b < order.len(),
    ensures
        ({
            let upper = row(regions, order, a).spec_label();
            let lower = row(regions, order, b).spec_label();
            &&& upper.len() > 0 && lower.len() > 0 ==> (upper[0] as u32) <= (lower[0] as u32)
            &&& lower.len() == 0 ==> upper.len() == 0
        }),
{
    let keys = region_keys(RegionSort::World, regions);
    lemma_arranged_in_range(order, keys, a);
    lemma_arranged_in_range(order, keys, b);
    let ka = codes(regions[order[a]].spec_label());
    let kb = codes(regions[order[b]].spec_label());
    assert(keys[order[a]] == ka && keys[order[b]] == kb);
    assert(before(keys, order[a], order[b]));
    if ka.len() > 0 && kb.len() > 0 {
        assert(ka[0] == (regions[order[a]].spec_label()[0] as u32) as int);
        assert(kb[0] == (regions[order[b]].spec_label()[0] as u32) as int);
    }
}

/// Under the default sort the region under most pressure comes first: a row
/// is never under less pressure than a row below it.
pub proof fn lemma_pressure_sort_is_worst_first(regions: Seq<Region>, order: Seq<int>, a: int, b: int)
    requires
        arranged(order, region_keys(RegionSort::Pressure, regions)),
        0 <= a < b < order.len(),
    ensures
        row(regions, order, a).spec_pressure() >= row(regions, order, b).spec_pressure(),
{
    let keys = region_keys(RegionSort::Pressure, regions);
    lemma_arranged_in_range(order, keys, a);
    lemma_arranged_in_range(order, keys, b);
    lemma_single_key_order(
        keys,
        order[a],
        order[b],
        -regions[order[a]].spec_pressure(),
        -regions[order[b]].spec_pressure(),
    );
}

/// The key of `region` under `sort`, computed.
fn key_of(sort: RegionSort, region: &Region) -> (r: Vec<i128>)
    ensures
        ints(r@) == region_key(sort, *region),
{
    let mut out: Vec<i128> = Vec::new();
    match sort {
        RegionSort::Pressure => out.push(-(region.pressure() as i128)),
        RegionSort::Tps => out.push(
            match region.tps {
                Some(tps) => tps as i128,
                None => i64::MAX as i128,
            },
        ),
        RegionSort::Mspt => out.push(
            -(match region.mspt {
                Some(mspt) => mspt as i128,
                None => 0,
            }),
        ),
        RegionSort::Players => out.push(count_key_of(region.players)),
        RegionSort::Entities => out.push(count_key_of(region.entities)),
        RegionSort::Chunks => out.push(count_key_of(region.chunks)),
        RegionSort::World => {
            let label = chars_of(region.label().as_str());
            let mut i: usize = 0;
            while i < label.len()
                invariant
                    i <= label@.len(),
                    label@ == region.spec_label(),
                    out@.len() == i,
                    forall|k: int| 0 <= k < i ==> (#[trigger] out@[k]) as int == (label@[k] as u32) as int,
                decreases label@.len() - i,
            {
                let c = label[i];
                out.push(c as u32 as i128);
                i += 1;
            }
            assert(ints(out@) =~= codes(label@));
            return out;
        },
    }
    assert(ints(out@) =~= region_key(sort, *region));
    out
}

fn count_key_of(count: Option<u32>) -> (r: i128)
    ensures
        r == count_key(count),
{
    match count {
        Some(count) => -(count as i128),
        None => 1,
    }
}

/// Whether `a` sorts strictly before `b`.
fn key_less(a: &Vec<i128>, b: &Vec<i128>) -> (r: bool)
    ensures
        r == lex_less(ints(a@), ints(b@)),
{
    let ghost sa = ints(a@);
    let ghost sb = ints(b@);
    assert(sa.skip(0) =~= sa);
    assert(sb.skip(0) =~= sb);
    let mut i: usize = 0;
    while i < a.len() && i < b.len() && a[i] == b[i]
        invariant
            i <= a@.len(),
            i <= b@.len(),
            sa == ints(a@),
            sb == ints(b@),
            lex_less(sa, sb) == lex_less(sa.skip(i as int), sb.skip(i as int)),
        decreases a@.len() - i,
    {
        proof {
            assert(sa.skip(i as int).drop_first() =~= sa.skip(i + 1));
            assert(sb.skip(i as int).drop_first() =~= sb.skip(i + 1));
            assert(sa.len() == a@.len());
            assert(sa[i as int] == a@[i as int] as int);
            assert(sb[i as int] == b@[i as int] as int);
            assert(sa.skip(i as int)[0] == sb.skip(i as int)[0]);
        }
        i += 1;
    }
    proof {
        if i < a.len() && i < b.len() {
            assert(sa.skip(i as int)[0] == a@[i as int] as int);
            assert(sb.skip(i as int)[0] == b@[i as int] as int);
        }
    }
    if i == a.len() {
        i < b.len()
    } else if i == b.len() {
        false
    } else {
        a[i] < b[i]
    }
}

/// The indices of `regions` in the order the table shows them under `sort`:
/// sorted by key, ties in their original order.
fn stable_order(sort: RegionSort, regions: &Vec<Region>) -> (r: Vec<usize>)
    ensures
        arranged(indices(r@), region_keys(sort, regions@)),
{
    let ghost keys = region_keys(sort, regions@);
    let mut computed: Vec<Vec<i128>> = Vec::new();
    let mut i: usize = 0;
    while i < regions.len()
        invariant
            i <= regions@.len(),
            keys == region_keys(sort, regions@),
            computed@.len() == i,
            forall|k: int| 0 <= k < i ==> ints((#[trigger] computed@[k])@) == keys[k],
        decreases regions@.len() - i,
    {
        computed.push(key_of(sort, &regions[i]));
        i += 1;
    }
    let mut order: Vec<usize> = Vec::new();
    let mut i: usize = 0;
    while i < regions.len()
        invariant
            i <= regions@.len(),
            keys == region_keys(sort, regions@),
            keys.len() == regions@.len(),
            computed@.len() == regions@.len(),
            forall|k: int| 0 <= k < regions@.len() ==> ints((#[trigger] computed@[k])@) == keys[k],
            order@.len() == i,
            sorted_prefix(indices(order@), keys, i as int),
            forall|q: int| 0 <= q < order@.len() ==> #[trigger] order@[q] < i,
        decreases regions@.len() - i,
    {
        let ghost ord = indices(order@);
        let ghost old_order = order@;
        let mut p = order.len();
        while p > 0 && key_less(&computed[i], &computed[order[p - 1]])
            invariant
                p <= order@.len(),
                i < regions@.len(),
                keys.len() == regions@.len(),
                computed@.len() == regions@.len(),
                forall|k: int| 0 <= k < regions@.len() ==> ints((#[trigger] computed@[k])@) == keys[k],
                ord == indices(order@),
                sorted_prefix(ord, keys, i as int),
                forall|q: int| 0 <= q < order@.len() ==> #[trigger] order@[q] < i,
                forall|q: int| p <= q < ord.len() ==> lex_less(keys[i as int], keys[#[trigger] ord[q]]),
            decreases p,
        {
            p -= 1;
        }
        proof {
            if p > 0 {
                let last = ord[p - 1];
                assert(!lex_less(keys[i as int], keys[last]));
                lemma_lex_total(keys[i as int], keys[last]);
                assert(before(keys, last, i as int));
                assert forall|q: int| 0 <= q < p implies before(keys, #[trigger] ord[q], i as int) by {
                    if q < p - 1 {
                        lemma_before_transitive(keys, ord[q], last, i as int);
                    }
                }
            }
        }
        order.insert(p, i);
        proof {
            assert forall|q: int| 0 <= q < order@.len() implies #[trigger] order@[q] < i + 1 by {
                if q < p {
                } else if q > p {
                    assert(order@[q] == old_order[q - 1]);
                }
            }
            let new_ord = indices(order@);
            assert(new_ord =~= ord.insert(p as int, i as int));
            assert forall|a: int, b: int|
                0 <= a < b < new_ord.len() implies before(keys, #[trigger] new_ord[a], #[trigger] new_ord[b]) by {
                if b < p {
                } else if b == p {
                } else if a < p {
                    assert(new_ord[b] == ord[b - 1]);
                    if a < p {
                        assert(before(keys, ord[a], ord[b - 1]));
                    }
                } else if a == p {
                    assert(new_ord[b] == ord[b - 1]);
                    assert(lex_less(keys[i as int], keys[ord[b - 1]]));
                } else {
                    assert(new_ord[a] == ord[a - 1]);
                    assert(new_ord[b] == ord[b - 1]);
                }
            }
        }
        i += 1;
    }
    order
}

/// The state that keys act on, as plain values.
pub struct Screen {
    pub tab: Tab,
    /// The command line's text and cursor.
    pub text: Seq<char>,
    pub cursor: nat,
    pub focused: bool,
    /// Commands sent, oldest first.
    pub sent: Seq<Seq<char>>,
    /// How far back the command history has been walked.
    pub recalled: Option<usize>,
    pub sort: RegionSort,
    pub selected: usize,
    pub offset: usize,
    pub scroll: usize,
    pub raw_view: bool,
    pub paused: bool,
    pub help: bool,
}

/// What a key asks of the caller, as plain values.
pub enum Reply {
    Nothing,
    Quit,
    Refresh,
    SetPaused(bool),
    Send(Seq<char>),
}

pub open spec fn reply_of(action: Action) -> Reply {
    match action {
        Action::Nothing => Reply::Nothing,
        Action::Quit => Reply::Quit,
        Action::Refresh => Reply::Refresh,
        Action::SetPaused(paused) => Reply::SetPaused(paused),
        Action::Send(command) => Reply::Send(command@),
    }
}

/// `value` held to `low..=high`.
pub open spec fn clamp(value: int, low: int, high: int) -> int {
    if value < low {
        low
    } else if value > high {
        high
    } else {
        value
    }
}

/// Lines the console can scroll back through.
pub open spec fn scrollback(raw_view: bool, log_len: nat, raw_len: nat) -> nat {
    let len = if raw_view { raw_len } else { log_len };
    if len > 0 { (len - 1) as nat } else { 0 }
}

/// Switch to `tab`, taking the keyboard for the command line on the console.
pub open spec fn go_to(s: Screen, tab: Tab) -> Screen {
    Screen { tab, focused: if tab == Tab::Console { true } else { s.focused }, ..s }
}

/// Move the selection, or the console scrollback, by `delta` rows.
pub open spec fn scroll_by(s: Screen, delta: int, regions: nat, log_len: nat, raw_len: nat) -> Screen {
    match s.tab {
        Tab::Regions => if regions == 0 {
            s
        } else {
            Screen { selected: clamp(s.selected + delta, 0, regions - 1) as usize, ..s }
        },
        Tab::Console => Screen {
            scroll: clamp(s.scroll + delta, 0, scrollback(s.raw_view, log_len, raw_len) as int) as usize,
            ..s
        },
        _ => s,
    }
}

pub open spec fn scroll_to_start(s: Screen, log_len: nat, raw_len: nat) -> Screen {
    match s.tab {
        Tab::Regions => Screen { selected: 0, ..s },
        Tab::Console => Screen { scroll: scrollback(s.raw_view, log_len, raw_len) as usize, ..s },
        _ => s,
    }
}

pub open spec fn scroll_to_end(s: Screen, regions: nat) -> Screen {
    match s.tab {
        Tab::Regions => Screen { selected: (if regions > 0 { regions - 1 } else { 0 }) as usize, ..s },
        Tab::Console => Screen { scroll: 0, ..s },
        _ => s,
    }
}

/// Step through the sent commands: `-1` is older, `1` is newer.
pub open spec fn recall(s: Screen, delta: int) -> Screen {
    if s.sent.len() == 0 {
        s
    } else {
        let index: Option<int> = match s.recalled {
            None => if delta == -1 { Some(s.sent.len() - 1) } else { None },
            Some(index) => if delta == -1 {
                Some(if index > 0 { index - 1 } else { 0 })
            } else {
                Some(index + 1)
            },
        };
        match index {
            None => s,
            Some(index) => if index >= s.sent.len() {
                Screen { recalled: None, text: Seq::empty(), cursor: 0, ..s }
            } else {
                Screen {
                    recalled: Some(index as usize),
                    text: s.sent[index],
                    cursor: s.sent[index].len(),
                    ..s
                }
            },
        }
    }
}

/// A key while the command line has the keyboard.
pub open spec fn console_press(s: Screen, key: Key, log_len: nat, raw_len: nat) -> (Screen, Reply) {
    let text = s.text;
    let cursor = s.cursor;
    match key {
        Key::Ctrl('c') => (s, Reply::Quit),
        Key::Enter => {
            let command = trim(text);
            let cleared = Screen { text: Seq::empty(), cursor: 0, ..s };
            if command.len() == 0 {
                (cleared, Reply::Nothing)
            } else {
                let sent = if s.sent.len() > 0 && s.sent.last() == command {
                    s.sent
                } else {
                    s.sent.push(command)
                };
                (Screen { sent, recalled: None, scroll: 0, ..cleared }, Reply::Send(command))
            }
        },
        Key::Esc => if text.len() == 0 {
            (Screen { focused: false, ..s }, Reply::Nothing)
        } else {
            (Screen { text: Seq::empty(), cursor: 0, recalled: None, ..s }, Reply::Nothing)
        },
        Key::Tab => (go_to(s, tab_step(s.tab, 1)), Reply::Nothing),
        Key::BackTab => (go_to(s, tab_step(s.tab, -1)), Reply::Nothing),
        Key::Up => (recall(s, -1), Reply::Nothing),
        Key::Down => (recall(s, 1), Reply::Nothing),
        Key::Left => (Screen { cursor: if cursor > 0 { (cursor - 1) as nat } else { 0 }, ..s }, Reply::Nothing),
        Key::Right => (
            Screen { cursor: if cursor < text.len() { cursor + 1 } else { text.len() }, ..s },
            Reply::Nothing,
        ),
        Key::Home | Key::Ctrl('a') => (Screen { cursor: 0, ..s }, Reply::Nothing),
        Key::End | Key::Ctrl('e') => (Screen { cursor: text.len(), ..s }, Reply::Nothing),
        Key::Backspace => if cursor > 0 {
            (Screen { text: text.remove(cursor - 1), cursor: (cursor - 1) as nat, ..s }, Reply::Nothing)
        } else {
            (s, Reply::Nothing)
        },
        Key::Delete => if cursor < text.len() {
            (Screen { text: text.remove(cursor as int), ..s }, Reply::Nothing)
        } else {
            (s, Reply::Nothing)
        },
        Key::Ctrl('u') => (Screen { text: Seq::empty(), cursor: 0, ..s }, Reply::Nothing),
        Key::Ctrl('w') => {
            let start = word_start(text, cursor as int);
            (
                Screen {
                    text: text.subrange(0, start) + text.subrange(cursor as int, text.len() as int),
                    cursor: start as nat,
                    ..s
                },
                Reply::Nothing,
            )
        },
        Key::PageUp => (scroll_by(s, 10, 0, log_len, raw_len), Reply::Nothing),
        Key::PageDown => (scroll_by(s, -10, 0, log_len, raw_len), Reply::Nothing),
        Key::Char(ch) => (Screen { text: text.insert(cursor as int, ch), cursor: cursor + 1, ..s }, Reply::Nothing),
        _ => (s, Reply::Nothing),
    }
}

/// What a key press does to the screen, and what it asks of the caller.
pub open spec fn press(s: Screen, key: Key, regions: nat, log_len: nat, raw_len: nat) -> (Screen, Reply) {
    if s.help {
        (Screen { help: false, ..s }, if key == Key::Ctrl('c') { Reply::Quit } else { Reply::Nothing })
    } else if s.tab == Tab::Console && s.focused {
        console_press(s, key, log_len, raw_len)
    } else {
        match key {
            Key::Char('q') | Key::Ctrl('c') | Key::Esc => (s, Reply::Quit),
            Key::Char('?') | Key::Char('h') | Key::F(1) => (Screen { help: true, ..s }, Reply::Nothing),
            Key::Tab | Key::Right => (go_to(s, tab_step(s.tab, 1)), Reply::Nothing),
            Key::BackTab | Key::Left => (go_to(s, tab_step(s.tab, -1)), Reply::Nothing),
            Key::Char(digit) if '1' <= digit && digit <= '5' => (
                go_to(s, tab_at(digit as int - '1' as int)),
                Reply::Nothing,
            ),
            Key::Char('r') => (s, Reply::Refresh),
            Key::Char('p') | Key::Char(' ') => (Screen { paused: !s.paused, ..s }, Reply::SetPaused(!s.paused)),
            Key::Char('s') if s.tab == Tab::Regions => (
                Screen { sort: sort_after(s.sort), selected: 0, offset: 0, ..s },
                Reply::Nothing,
            ),
            Key::Char('v') if s.tab == Tab::Console => (
                Screen { raw_view: !s.raw_view, scroll: 0, ..s },
                Reply::Nothing,
            ),
            Key::Enter if s.tab == Tab::Console => (Screen { focused: true, ..s }, Reply::Nothing),
            Key::Char('i') if s.tab == Tab::Console => (Screen { focused: true, ..s }, Reply::Nothing),
            Key::Down | Key::Char('j') => (scroll_by(s, 1, regions, log_len, raw_len), Reply::Nothing),
            Key::Up | Key::Char('k') => (scroll_by(s, -1, regions, log_len, raw_len), Reply::Nothing),
            Key::PageDown => (scroll_by(s, 10, regions, log_len, raw_len), Reply::Nothing),
            Key::PageUp => (scroll_by(s, -10, regions, log_len, raw_len), Reply::Nothing),
            Key::Home => (scroll_to_start(s, log_len, raw_len), Reply::Nothing),
            Key::End => (scroll_to_end(s, regions), Reply::Nothing),
            _ => (s, Reply::Nothing),
        }
    }
}

/// Everything on screen.
pub struct App {
    pub config: Arc<Config>,
    pub tab: Tab,
    pub link: Link,
    pub identity: ServerIdentity,
    pub tps: TpsReading,
    pub mspt: MsptReading,
    pub regions: RegionReport,
    pub players: Players,
    pub process: Option<ProcessStats>,
    pub heap: HeapStats,
    /// Why the heap could not be read, when it could not be.
    pub heap_error: Option<String>,
    pub disk: DiskUsage,
    /// Series behind the charts: tick rate and tick time in [`UNIT`]s, CPU in
    /// [`UNIT`]s of a percent, heap in bytes, players as a count.
    pub tps_history: History,
    pub mspt_history: History,
    pub cpu_history: History,
    pub heap_history: History,
    pub player_history: History,
    pub log: VecDeque<LogEntry>,
    /// The most recent raw poll responses, newest first. A diagnostic view,
    /// kept out of the console scrollback so that a command running once a
    /// second does not bury what the operator typed.
    pub raw: VecDeque<(String, String)>,
    pub show_raw: bool,
    /// The console's command line.
    pub input: Input,
    /// Whether typing goes to the command line rather than the global keys.
    /// True whenever the Console tab is open, until Esc says otherwise.
    pub input_focused: bool,
    /// Commands sent this session, oldest first, walked with Up and Down.
    pub history: Vec<String>,
    /// Where in `history` the Up key has reached; `None` means the live line.
    pub history_index: Option<usize>,
    pub region_sort: RegionSort,
    pub region_selected: usize,
    /// First visible row of the region table. Owned here rather than rebuilt
    /// each frame so that moving the selection scrolls the view by a row
    /// instead of jumping it to put the selection at the edge.
    pub region_offset: usize,
    pub log_scroll: usize,
    pub paused: bool,
    pub show_help: bool,
    pub started: Instant,
    /// When a reading last arrived, so a frozen display is visible as frozen.
    pub last_update: Option<Instant>,
}

/// How many lines of scrollback the console keeps.
pub open spec fn log_limit(config: Config) -> nat {
    if config.ui.log_lines < 16 { 16 } else { config.ui.log_lines as nat }
}

/// The scrollback after `entry` arrives: a warning or error repeating the last
/// line is dropped, and the oldest lines go once the limit is passed. Someone
/// scrolled back stays on the same lines.
pub open spec fn logged(log: Seq<LogEntry>, scroll: usize, entry: LogEntry, limit: nat) -> (Seq<LogEntry>, int) {
    let noisy = entry.kind == Kind::Warn || entry.kind == Kind::Error;
    if noisy && log.len() > 0 && log.last().message@ == entry.message@ && log.last().kind == entry.kind {
        (log, scroll as int)
    } else {
        let grown = log.push(entry);
        let excess = if grown.len() > limit { grown.len() - limit } else { 0 };
        let moved = if scroll > 0 { scroll + 1 } else { 0 };
        (grown.subrange(excess, grown.len() as int), if moved > excess { moved - excess } else { 0 })
    }
}

/// Add `entry` to the scrollback `log`, keeping `scroll` on the same lines.
fn log_into(log: &mut VecDeque<LogEntry>, scroll: &mut usize, limit: usize, entry: LogEntry)
    requires
        *old(scroll) < usize::MAX,
        limit >= 16,
    ensures
        ({
            let (new_log, new_scroll) = logged(old(log)@, *old(scroll), entry, limit as nat);
            &&& final(log)@ == new_log
            &&& *final(scroll) == new_scroll
        }),
{
    // Collapse a complaint repeated back to back; a server that is down
    // otherwise fills the scrollback with one line over and over. Console
    // traffic is never collapsed: running `list` twice should show twice,
    // and a reply that repeats a line is the server's business, not ours.
    let noisy = match entry.kind {
        Kind::Warn | Kind::Error => true,
        _ => false,
    };
    let len = log.len();
    if noisy && len > 0 {
        let last = &log[len - 1];
        if last.kind == entry.kind && last.message == entry.message {
            return;
        }
    }
    // Someone reading back through the scrollback should stay where they
    // are when a new line lands, not be dragged forward by it.
    if *scroll > 0 {
        *scroll = *scroll + 1;
    }
    let ghost grown = old(log)@.push(entry);
    let ghost moved = *scroll;
    log.push_back(entry);
    let ghost excess: int = if grown.len() > limit { grown.len() - limit } else { 0 };
    let ghost mut dropped: int = 0;
    while log.len() > limit
        invariant
            0 <= dropped <= excess,
            log@ == grown.subrange(dropped, grown.len() as int),
            *scroll == if moved > dropped { moved - dropped } else { 0 },
            excess == if grown.len() > limit { grown.len() - limit } else { 0 },
        decreases log@.len(),
    {
        log.pop_front();
        *scroll = if *scroll > 0 { *scroll - 1 } else { 0 };
        proof {
            dropped = dropped + 1;
        }
    }
}

/// The selection and table offset once a region list of `count` rows arrives.
pub open spec fn clamped_selection(selected: usize, offset: usize, count: nat) -> (usize, usize) {
    let selected = if selected >= count {
        if count > 0 { (count - 1) as usize } else { 0 }
    } else {
        selected
    };
    (selected, if count == 0 { 0 } else if offset > selected { selected } else { offset })
}

fn clamp_selection(selected: usize, offset: usize, count: usize) -> (r: (usize, usize))
    ensures
        r == clamped_selection(selected, offset, count as nat),
{
    let last = if count > 0 { count - 1 } else { 0 };
    let mut selected = selected;
    let mut offset = offset;
    if selected > last {
        selected = last;
    }
    if count == 0 {
        selected = 0;
        offset = 0;
    }
    if offset > selected {
        offset = selected;
    }
    (selected, offset)
}

/// A history after one more sample, taken at `at`.
pub open spec fn after_push(old: (Seq<(u64, i64)>, nat), at: u64, value: i64) -> (Seq<(u64, i64)>, nat) {
    (
        if old.0.len() == old.1 {
            old.0.drop_first().push((at, value))
        } else {
            old.0.push((at, value))
        },
        old.1,
    )
}

/// `new` is `old` after one more sample, taken at some moment.
pub open spec fn pushed(old: (Seq<(u64, i64)>, nat), new: (Seq<(u64, i64)>, nat), value: i64) -> bool {
    exists|at: u64| #[trigger] after_push(old, at, value) == new
}

/// A value held within `i64`.
pub open spec fn capped(value: u64) -> i64 {
    if value > i64::MAX { i64::MAX } else { value as i64 }
}

impl App {
    /// The state that keys act on.
    pub open spec fn screen(&self) -> Screen {
        Screen {
            tab: self.tab,
            text: self.input@.0,
            cursor: self.input@.1,
            focused: self.input_focused,
            sent: words_text(self.history@),
            recalled: self.history_index,
            sort: self.region_sort,
            selected: self.region_selected,
            offset: self.region_offset,
            scroll: self.log_scroll,
            raw_view: self.show_raw,
            paused: self.paused,
            help: self.show_help,
        }
    }

    /// The readings, which keys leave alone.
    pub open spec fn readings_same(&self, other: &App) -> bool {
        &&& self.config == other.config
        &&& self.link == other.link
        &&& self.identity == other.identity
        &&& self.tps == other.tps
        &&& self.mspt == other.mspt
        &&& self.regions == other.regions
        &&& self.players == other.players
        &&& self.process == other.process
        &&& self.heap == other.heap
        &&& self.heap_error == other.heap_error
        &&& self.disk == other.disk
        &&& self.tps_history@ == other.tps_history@
        &&& self.mspt_history@ == other.mspt_history@
        &&& self.cpu_history@ == other.cpu_history@
        &&& self.heap_history@ == other.heap_history@
        &&& self.player_history@ == other.player_history@
        &&& self.log@ == other.log@
        &&& self.raw@ == other.raw@
        &&& self.started == other.started
        &&& self.last_update == other.last_update
    }

    /// Counters that stay far from the limits of their types, as any state the
    /// keys and readings produce does.
    pub open spec fn within_limits(&self) -> bool {
        &&& self.region_selected + 10 < isize::MAX
        &&& self.log_scroll + 10 < isize::MAX
        &&& self.regions.regions@.len() < isize::MAX
        &&& self.log@.len() < isize::MAX
        &&& self.raw@.len() < isize::MAX
        &&& (self.history_index matches Some(index) ==> index < usize::MAX)
    }

    /// Whether the counters are within the limits that [`App::on_key`] asks
    /// for.
    pub fn keys_fit(&self) -> (r: bool)
        ensures
            r == self.within_limits(),
    {
        let room: usize = (isize::MAX as usize) - 10;
        self.region_selected < room && self.log_scroll < room && self.regions.regions.len() < (isize::MAX as usize)
            && self.log.len() < (isize::MAX as usize) && self.raw.len() < (isize::MAX as usize) && match self.history_index {
            Some(index) => index < usize::MAX,
            None => true,
        }
    }

    pub fn new(config: Arc<Config>) -> (r: App)
        ensures
            r.config == config,
            r.tab == Tab::Overview,
            r.link is Connecting,
            r.regions.regions@.len() == 0 && r.regions.total.is_none(),
            r.process.is_none() && r.heap_error.is_none(),
            r.log@.len() == 0 && r.raw@.len() == 0,
            r.tps_history@.0.len() == 0 && r.tps_history@.1 == clamp(config.ui.history as int, 16, 4096),
            r.player_history@.0.len() == 0,
            r.screen() == (Screen {
                tab: Tab::Overview,
                text: Seq::empty(),
                cursor: 0,
                focused: true,
                sent: Seq::empty(),
                recalled: None,
                sort: RegionSort::Pressure,
                selected: 0,
                offset: 0,
                scroll: 0,
                raw_view: false,
                paused: false,
                help: false,
            }),
            r.last_update.is_none(),
    {
        let requested = config.ui.history;
        let capacity = if requested < 16 {
            16
        } else if requested > 4096 {
            4096
        } else {
            requested
        };
        let history: Vec<String> = Vec::new();
        let r = App {
            tab: Tab::Overview,
            link: Link::Connecting,
            identity: ServerIdentity::default(),
            tps: TpsReading::default(),
            mspt: MsptReading::default(),
            regions: RegionReport::default(),
            players: Players::default(),
            process: None,
            heap: HeapStats::default(),
            heap_error: None,
            disk: DiskUsage::default(),
            tps_history: History::new(capacity),
            mspt_history: History::new(capacity),
            cpu_history: History::new(capacity),
            heap_history: History::new(capacity),
            player_history: History::new(capacity),
            log: VecDeque::new(),
            raw: VecDeque::new(),
            show_raw: false,
            input: Input::new(),
            input_focused: true,
            history,
            history_index: None,
            region_sort: RegionSort::Pressure,
            region_selected: 0,
            region_offset: 0,
            log_scroll: 0,
            paused: false,
            show_help: false,
            started: instant_now(),
            last_update: None,
            config,
        };
        assert(words_text(r.history@) =~= Seq::<Seq<char>>::empty());
        r
    }

    /// Milliseconds since the app started, for stamping samples.
    fn now(&self) -> (r: u64) {
        millis_since(&self.started)
    }

    /// Fold one collector reading into the state.
    pub fn apply(&mut self, update: Update)
        requires
            old(self).log_scroll < usize::MAX,
        ensures
            final(self).last_update.is_some(),
            final(self).config == old(self).config,
            final(self).screen().tab == old(self).screen().tab,
            final(self).input@ == old(self).input@,
            final(self).history@ == old(self).history@,
            update matches Update::Link(link) ==> final(self).link == link,
            update matches Update::Identity(identity) ==> final(self).identity == identity,
            update matches Update::Tps(tps) ==> final(self).tps == tps,
            update matches Update::Tps(tps) ==> if tps.windows@.len() > 0 {
                pushed(old(self).tps_history@, final(self).tps_history@, tps.windows@[0].1)
            } else {
                final(self).tps_history@ == old(self).tps_history@
            },
            update matches Update::Mspt(mspt) ==> final(self).mspt == mspt,
            update matches Update::Mspt(mspt) ==> if mspt.windows@.len() > 0 {
                pushed(old(self).mspt_history@, final(self).mspt_history@, mspt.windows@[0].1.average)
            } else {
                final(self).mspt_history@ == old(self).mspt_history@
            },
            update matches Update::Regions(regions) ==> final(self).regions == regions,
            update matches Update::Regions(regions) ==> (final(self).region_selected, final(self).region_offset)
                == clamped_selection(old(self).region_selected, old(self).region_offset, regions.regions@.len()),
            update matches Update::Players(players) ==> final(self).players == players,
            update matches Update::Players(players) ==> pushed(
                old(self).player_history@,
                final(self).player_history@,
                players.online as i64,
            ),
            update matches Update::Process(process) ==> final(self).process == process,
            update matches Update::Process(process) ==> match process {
                Some(stats) => pushed(old(self).cpu_history@, final(self).cpu_history@, stats.cpu_percent),
                None => final(self).cpu_history@ == old(self).cpu_history@,
            },
            update matches Update::Heap { stats, error } ==> final(self).heap_error == error,
            update matches Update::Heap { stats, error } ==> match stats {
                Some(stats) => final(self).heap == stats,
                None => final(self).heap.used.is_none() && final(self).heap.after_gc.is_none()
                    && final(self).heap.max.is_none(),
            },
            update is Heap ==> match final(self).heap.used {
                Some(used) => pushed(old(self).heap_history@, final(self).heap_history@, capped(used)),
                None => final(self).heap_history@ == old(self).heap_history@,
            },
            update matches Update::Disk(disk) ==> final(self).disk == disk,
            update is DiskScanStarted ==> final(self).disk.scanning && final(self).disk.worlds@
                == old(self).disk.worlds@,
            update matches Update::Log(entry) ==> ({
                let (log, scroll) = logged(old(self).log@, old(self).log_scroll, entry, log_limit(*old(self).config));
                &&& final(self).log@ == log
                &&& final(self).log_scroll == scroll
            }),
            update matches Update::Raw { command, response } ==> ({
                let grown = seq![(command, response)] + old(self).raw@;
                final(self).raw@ == if grown.len() > 32 { grown.subrange(0, 32) } else { grown }
            }),
            update is Link ==> *final(self) == (App { link: final(self).link, last_update: final(self).last_update, ..*old(self) }),
            update is Identity ==> *final(self) == (App {
                identity: final(self).identity,
                last_update: final(self).last_update,
                ..*old(self)
            }),
            update is Tps ==> *final(self) == (App {
                tps: final(self).tps,
                tps_history: final(self).tps_history,
                last_update: final(self).last_update,
                ..*old(self)
            }),
            update is Mspt ==> *final(self) == (App {
                mspt: final(self).mspt,
                mspt_history: final(self).mspt_history,
                last_update: final(self).last_update,
                ..*old(self)
            }),
            update is Regions ==> *final(self) == (App {
                regions: final(self).regions,
                region_selected: final(self).region_selected,
                region_offset: final(self).region_offset,
                last_update: final(self).last_update,
                ..*old(self)
            }),
            update is Players ==> *final(self) == (App {
                players: final(self).players,
                player_history: final(self).player_history,
                last_update: final(self).last_update,
                ..*old(self)
            }),
            update is Process ==> *final(self) == (App {
                process: final(self).process,
                cpu_history: final(self).cpu_history,
                last_update: final(self).last_update,
                ..*old(self)
            }),
            update is Heap ==> *final(self) == (App {
                heap: final(self).heap,
                heap_error: final(self).heap_error,
                heap_history: final(self).heap_history,
                last_update: final(self).last_update,
                ..*old(self)
            }),
            update is Disk ==> *final(self) == (App { disk: final(self).disk, last_update: final(self).last_update, ..*old(self) }),
            update is DiskScanStarted ==> *final(self) == (App {
                disk: DiskUsage { scanning: true, ..old(self).disk },
                last_update: final(self).last_update,
                ..*old(self)
            }),
            update is Log ==> *final(self) == (App {
                log: final(self).log,
                log_scroll: final(self).log_scroll,
                last_update: final(self).last_update,
                ..*old(self)
            }),
            update is Raw ==> *final(self) == (App { raw: final(self).raw, last_update: final(self).last_update, ..*old(self) }),
    {
        self.last_update = Some(instant_now());
        match update {
            Update::Link(link) => self.link = link,
            Update::Identity(identity) => self.identity = identity,
            Update::Tps(tps) => {
                if let Some(value) = tps.current() {
                    let now = self.now();
                    let ghost before = self.tps_history@;
                    self.tps_history.push_at(now, value);
                    assert(after_push(before, now, value) == self.tps_history@);
                }
                self.tps = tps;
            },
            Update::Mspt(mspt) => {
                if let Some(window) = mspt.current() {
                    let now = self.now();
                    let ghost before = self.mspt_history@;
                    self.mspt_history.push_at(now, window.average);
                    assert(after_push(before, now, window.average) == self.mspt_history@);
                }
                self.mspt = mspt;
            },
            Update::Regions(regions) => {
                let (selected, offset) = clamp_selection(
                    self.region_selected,
                    self.region_offset,
                    regions.regions.len(),
                );
                self.regions = regions;
                self.region_selected = selected;
                self.region_offset = offset;
            },
            Update::Players(players) => {
                let now = self.now();
                let ghost before = self.player_history@;
                self.player_history.push_at(now, players.online as i64);
                assert(after_push(before, now, players.online as i64) == self.player_history@);
                self.players = players;
            },
            Update::Process(process) => {
                if let Some(stats) = &process {
                    let now = self.now();
                    let ghost before = self.cpu_history@;
                    self.cpu_history.push_at(now, stats.cpu_percent);
                    assert(after_push(before, now, stats.cpu_percent) == self.cpu_history@);
                }
                self.process = process;
            },
            Update::Heap { stats, error } => {
                self.heap_error = error;
                let heap = match stats {
                    Some(stats) => stats,
                    None => HeapStats::default(),
                };
                if let Some(used) = heap.used {
                    let now = self.now();
                    let value = if used > i64::MAX as u64 { i64::MAX } else { used as i64 };
                    let ghost before = self.heap_history@;
                    self.heap_history.push_at(now, value);
                    assert(after_push(before, now, value) == self.heap_history@);
                }
                self.heap = heap;
            },
            Update::Disk(disk) => self.disk = disk,
            Update::DiskScanStarted => self.disk.scanning = true,
            Update::Log(entry) => {
                let limit = if self.config.ui.log_lines < 16 { 16 } else { self.config.ui.log_lines };
                log_into(&mut self.log, &mut self.log_scroll, limit, entry);
            },
            Update::Raw { command, response } => {
                self.raw.push_front((command, response));
                self.raw.truncate(32);
            },
        }
    }

    fn push_log(&mut self, entry: LogEntry)
        requires
            old(self).log_scroll < usize::MAX,
        ensures
            ({
                let (log, scroll) = logged(old(self).log@, old(self).log_scroll, entry, log_limit(*old(self).config));
                &&& final(self).log@ == log
                &&& final(self).log_scroll == scroll
            }),
    {
        let limit = if self.config.ui.log_lines < 16 { 16 } else { self.config.ui.log_lines };
        log_into(&mut self.log, &mut self.log_scroll, limit, entry);
    }

    pub fn note(&mut self, kind: Kind, message: String)
        requires
            old(self).log_scroll < usize::MAX,
        ensures
            exists|entry: LogEntry|
                entry.kind == kind && entry.message@ == message@ && ({
                    let (log, scroll) = logged(old(self).log@, old(self).log_scroll, entry, log_limit(*old(self).config));
                    &&& final(self).log@ == log
                    &&& final(self).log_scroll == scroll
                }),
    {
        let entry = LogEntry::new(kind, message);
        self.push_log(entry);
    }

    /// Regions in the order the table shows them: the stable sort of the
    /// regions by the key of the current sort.
    pub fn sorted_regions(&self) -> (r: Vec<&Region>)
        ensures
            exists|order: Seq<int>|
                arranged(order, region_keys(self.region_sort, self.regions.regions@)) && r@.len()
                    == order.len() && forall|i: int|
                    0 <= i < r@.len() ==> *r@[i] == self.regions.regions@[#[trigger] order[i]],
    {
        let order = stable_order(self.region_sort, &self.regions.regions);
        let mut out: Vec<&Region> = Vec::new();
        let mut i: usize = 0;
        while i < order.len()
            invariant
                i <= order@.len(),
                arranged(indices(order@), region_keys(self.region_sort, self.regions.regions@)),
                out@.len() == i,
                forall|j: int| 0 <= j < i ==> *out@[j] == self.regions.regions@[#[trigger] order@[j] as int],
            decreases order@.len() - i,
        {
            proof {
                lemma_arranged_in_range(indices(order@), region_keys(self.region_sort, self.regions.regions@), i as int);
            }
            out.push(&self.regions.regions[order[i]]);
            i += 1;
        }
        proof {
            let ord = indices(order@);
            assert forall|i: int| 0 <= i < out@.len() implies *out@[i] == self.regions.regions@[#[trigger] ord[i]] by {
                assert(ord[i] == order@[i] as int);
            }
        }
        out
    }

    pub fn selected_region(&self) -> (r: Option<Region>)
        ensures
            r.is_some() <==> self.region_selected < self.regions.regions@.len(),
            r matches Some(region) ==> exists|order: Seq<int>|
                arranged(order, region_keys(self.region_sort, self.regions.regions@))
                    && region.same(&self.regions.regions@[order[self.region_selected as int]]),
    {
        let sorted = self.sorted_regions();
        if self.region_selected < sorted.len() {
            Some(sorted[self.region_selected].clone())
        } else {
            None
        }
    }

    /// Whether the Regions tab has anything to say. Paper ticks one region per
    /// world, so only Folia fills this in.
    pub fn has_regions(&self) -> (r: bool)
        ensures
            r == (self.regions.regions@.len() > 0 || self.regions.total.is_some()),
    {
        self.regions.regions.len() > 0 || self.regions.total.is_some()
    }

    /// Time since the last reading, for the staleness indicator.
    pub fn staleness(&self) -> (r: Option<Duration>)
        ensures
            r.is_some() == self.last_update.is_some(),
    {
        match &self.last_update {
            Some(at) => Some(elapsed_since(at)),
            None => None,
        }
    }

    fn scrollback_len(&self) -> (r: usize)
        ensures
            r == scrollback(self.show_raw, self.log@.len(), self.raw@.len()),
    {
        let len = if self.show_raw { self.raw.len() } else { self.log.len() };
        if len > 0 { len - 1 } else { 0 }
    }

    fn go_to(&mut self, tab: Tab)
        ensures
            final(self).screen() == go_to(old(self).screen(), tab),
            final(self).readings_same(old(self)),
            final(self).history@ == old(self).history@,
            final(self).input@ == old(self).input@,
    {
        self.tab = tab;
        if tab == Tab::Console {
            self.input_focused = true;
        }
    }

    fn scroll(&mut self, delta: isize)
        requires
            -10 <= delta <= 10,
            old(self).within_limits(),
        ensures
            final(self).screen() == scroll_by(
                old(self).screen(),
                delta as int,
                old(self).regions.regions@.len(),
                old(self).log@.len(),
                old(self).raw@.len(),
            ),
            final(self).readings_same(old(self)),
            final(self).history@ == old(self).history@,
            final(self).input@ == old(self).input@,
    {
        match self.tab {
            Tab::Regions => {
                let count = self.regions.regions.len();
                if count == 0 {
                    return;
                }
                let moved = self.region_selected as isize + delta;
                let index = if moved < 0 {
                    0
                } else if moved > count as isize - 1 {
                    count as isize - 1
                } else {
                    moved
                };
                self.region_selected = index as usize;
            },
            Tab::Console => {
                let count = self.scrollback_len();
                let moved = self.log_scroll as isize + delta;
                let index = if moved < 0 {
                    0
                } else if moved > count as isize {
                    count as isize
                } else {
                    moved
                };
                self.log_scroll = index as usize;
            },
            _ => {},
        }
    }

    fn scroll_to_start(&mut self)
        ensures
            final(self).screen() == scroll_to_start(old(self).screen(), old(self).log@.len(), old(self).raw@.len()),
            final(self).readings_same(old(self)),
            final(self).history@ == old(self).history@,
            final(self).input@ == old(self).input@,
    {
        match self.tab {
            Tab::Regions => self.region_selected = 0,
            Tab::Console => self.log_scroll = self.scrollback_len(),
            _ => {},
        }
    }

    fn scroll_to_end(&mut self)
        ensures
            final(self).screen() == scroll_to_end(old(self).screen(), old(self).regions.regions@.len()),
            final(self).readings_same(old(self)),
            final(self).history@ == old(self).history@,
            final(self).input@ == old(self).input@,
    {
        match self.tab {
            Tab::Regions => {
                let count = self.regions.regions.len();
                self.region_selected = if count > 0 { count - 1 } else { 0 };
            },
            Tab::Console => self.log_scroll = 0,
            _ => {},
        }
    }

    /// Step through the command history. `-1` is older, `1` is newer.
    fn recall(&mut self, delta: isize)
        requires
            delta == -1 || delta == 1,
            old(self).within_limits(),
        ensures
            final(self).screen() == recall(old(self).screen(), delta as int),
            final(self).readings_same(old(self)),
            final(self).history@ == old(self).history@,
    {
        let len = self.history.len();
        if len == 0 {
            return;
        }
        let index = match self.history_index {
            None => {
                if delta == -1 {
                    len - 1
                } else {
                    return;
                }
            },
            Some(index) => {
                if delta == -1 {
                    if index > 0 { index - 1 } else { 0 }
                } else {
                    index + 1
                }
            },
        };
        // Walking past the newest entry returns to the empty line.
        if index >= len {
            self.history_index = None;
            self.input.clear();
            return;
        }
        self.history_index = Some(index);
        let recalled = self.history[index].clone();
        self.input.set(recalled.as_str());
    }

    /// Handle a key press. Returns what the caller should do about it.
    pub fn on_key(&mut self, key: Key) -> (r: Action)
        requires
            old(self).within_limits(),
        ensures
            (final(self).screen(), reply_of(r)) == press(
                old(self).screen(),
                key,
                old(self).regions.regions@.len(),
                old(self).log@.len(),
                old(self).raw@.len(),
            ),
            final(self).readings_same(old(self)),
    {
        // While the help is up, any key dismisses it and does nothing else —
        // which is what the overlay itself promises. Ctrl-C still quits, since
        // an escape hatch that a modal can swallow is not an escape hatch.
        if self.show_help {
            self.show_help = false;
            return if key == Key::Ctrl('c') {
                Action::Quit
            } else {
                Action::Nothing
            };
        }
        // On the Console tab the command line owns the keyboard, so that typing
        // `stop` does not quit on the first keystroke.
        if self.tab == Tab::Console && self.input_focused {
            return self.on_console_key(key);
        }
        match key {
            Key::Char('q') | Key::Ctrl('c') | Key::Esc => Action::Quit,
            Key::Char('?') | Key::Char('h') | Key::F(1) => {
                self.show_help = true;
                Action::Nothing
            },
            Key::Tab | Key::Right => {
                let tab = self.tab.step(1);
                self.go_to(tab);
                Action::Nothing
            },
            Key::BackTab | Key::Left => {
                let tab = self.tab.step(-1);
                self.go_to(tab);
                Action::Nothing
            },
            Key::Char(digit) if '1' <= digit && digit <= '5' => {
                let index = (digit as u32 - '1' as u32) as usize;
                self.go_to(Tab::at(index));
                Action::Nothing
            },
            Key::Char('r') => Action::Refresh,
            Key::Char('p') | Key::Char(' ') => {
                self.paused = !self.paused;
                Action::SetPaused(self.paused)
            },
            Key::Char('s') if self.tab == Tab::Regions => {
                self.region_sort = self.region_sort.next();
                self.region_selected = 0;
                self.region_offset = 0;
                Action::Nothing
            },
            Key::Char('v') if self.tab == Tab::Console => {
                self.show_raw = !self.show_raw;
                self.log_scroll = 0;
                Action::Nothing
            },
            // Anything that would type a character puts the focus back.
            Key::Enter if self.tab == Tab::Console => {
                self.input_focused = true;
                Action::Nothing
            },
            Key::Char('i') if self.tab == Tab::Console => {
                self.input_focused = true;
                Action::Nothing
            },
            Key::Down | Key::Char('j') => {
                self.scroll(1);
                Action::Nothing
            },
            Key::Up | Key::Char('k') => {
                self.scroll(-1);
                Action::Nothing
            },
            Key::PageDown => {
                self.scroll(10);
                Action::Nothing
            },
            Key::PageUp => {
                self.scroll(-10);
                Action::Nothing
            },
            Key::Home => {
                self.scroll_to_start();
                Action::Nothing
            },
            Key::End => {
                self.scroll_to_end();
                Action::Nothing
            },
            _ => Action::Nothing,
        }
    }

    /// Keys while the command line has the focus.
    fn on_console_key(&mut self, key: Key) -> (r: Action)
        requires
            old(self).within_limits(),
            old(self).tab == Tab::Console,
        ensures
            (final(self).screen(), reply_of(r)) == console_press(
                old(self).screen(),
                key,
                old(self).log@.len(),
                old(self).raw@.len(),
            ),
            final(self).readings_same(old(self)),
    {
        match key {
            // The one global that a text field must never swallow.
            Key::Ctrl('c') => Action::Quit,
            Key::Enter => {
                let text = self.input.take();
                let chars = chars_of(text.as_str());
                let (from, to) = trim_bounds(&chars, 0, chars.len());
                proof {
                    assert(chars@.subrange(0, chars@.len() as int) =~= chars@);
                }
                if from == to {
                    return Action::Nothing;
                }
                let command = string_between(&chars, from, to);
                // Repeating the last command should not double the history.
                let len = self.history.len();
                let repeat = len > 0 && self.history[len - 1] == command;
                if !repeat {
                    let ghost before = self.history@;
                    self.history.push(command.clone());
                    proof {
                        assert(words_text(self.history@) =~= words_text(before).push(command@));
                    }
                }
                self.history_index = None;
                self.log_scroll = 0;
                Action::Send(command)
            },
            // Esc clears a half-typed line first, and only then gives the
            // keyboard back — so it always undoes the smaller thing first.
            Key::Esc => {
                if self.input.is_empty() {
                    self.input_focused = false;
                } else {
                    self.input.clear();
                    self.history_index = None;
                }
                Action::Nothing
            },
            Key::Tab => {
                let tab = self.tab.step(1);
                self.go_to(tab);
                Action::Nothing
            },
            Key::BackTab => {
                let tab = self.tab.step(-1);
                self.go_to(tab);
                Action::Nothing
            },
            Key::Up => {
                self.recall(-1);
                Action::Nothing
            },
            Key::Down => {
                self.recall(1);
                Action::Nothing
            },
            Key::Left => {
                self.input.left();
                Action::Nothing
            },
            Key::Right => {
                self.input.right();
                Action::Nothing
            },
            Key::Home | Key::Ctrl('a') => {
                self.input.home();
                Action::Nothing
            },
            Key::End | Key::Ctrl('e') => {
                self.input.end();
                Action::Nothing
            },
            Key::Backspace => {
                self.input.backspace();
                Action::Nothing
            },
            Key::Delete => {
                self.input.delete();
                Action::Nothing
            },
            Key::Ctrl('u') => {
                self.input.clear();
                Action::Nothing
            },
            Key::Ctrl('w') => {
                self.input.delete_word();
                Action::Nothing
            },
            // Scrolling the output stays available while typing.
            Key::PageUp => {
                self.scroll(10);
                Action::Nothing
            },
            Key::PageDown => {
                self.scroll(-10);
                Action::Nothing
            },
            Key::Char(ch) => {
                self.input.insert(ch);
                Action::Nothing
            },
            _ => Action::Nothing,
        }
    }
}

/// Stepping through the tabs adds up: `a` places then `b` places is `a + b`
/// places.
pub proof fn lemma_tab_steps_add(tab: Tab, a: int, b: int)
    ensures
        tab_step(tab_step(tab, a), b) == tab_step(tab, a + b),
{
    let i = tab_index(tab);
    let first = (i + a) % 5;
    assert(tab_index(tab_at(first)) == first);
    assert((first + b) % 5 == (i + a + b) % 5) by (nonlinear_arith)
        requires
            first == (i + a) % 5,
    ;
}

/// The tabs wrap in both directions: as many steps as there are tabs come back
/// round, and a step back undoes a step forward.
pub proof fn lemma_tabs_wrap(tab: Tab)
    ensures
        tab_step(tab, 5) == tab,
        tab_step(tab_step(tab, 1), -1) == tab,
        tab_step(tab_step(tab, -1), 1) == tab,
{
    lemma_tab_steps_add(tab, 1, -1);
    lemma_tab_steps_add(tab, -1, 1);
    assert(tab_step(tab, 0) == tab);
}

/// A tab's position names it.
pub proof fn lemma_tab_positions_name_tabs(tab: Tab)
    ensures
        tab_at(tab_index(tab)) == tab,
        0 <= tab_index(tab) < 5,
{
}

/// The region sorts form one cycle of seven.
pub proof fn lemma_sorts_cycle(sort: RegionSort)
    ensures
        sort_after(sort_after(sort_after(sort_after(sort_after(sort_after(sort_after(sort))))))) == sort,
{
}

/// The sort reached from `sort` after `k` presses of the sort key.
pub open spec fn sorts_after(sort: RegionSort, k: nat) -> RegionSort
    decreases k,
{
    if k == 0 {
        sort
    } else {
        sort_after(sorts_after(sort, (k - 1) as nat))
    }
}

/// Where a sort stands in the cycle, counting from the default.
pub open spec fn sort_position(sort: RegionSort) -> int {
    match sort {
        RegionSort::Pressure => 0,
        RegionSort::Tps => 1,
        RegionSort::Mspt => 2,
        RegionSort::Players => 3,
        RegionSort::Entities => 4,
        RegionSort::Chunks => 5,
        RegionSort::World => 6,
    }
}

proof fn lemma_sort_position_after(sort: RegionSort, k: nat)
    ensures
        sort_position(sorts_after(sort, k)) == (sort_position(sort) + k) % 7,
    decreases k,
{
    if k > 0 {
        lemma_sort_position_after(sort, (k - 1) as nat);
        let p = sort_position(sort);
        assert(((p + (k - 1)) % 7 + 1) % 7 == (p + k) % 7) by (nonlinear_arith)
            requires
                k >= 1,
        {
            vstd::arithmetic::div_mod::lemma_add_mod_noop(p + k - 1, 1, 7);
        }
    }
}

/// Pressing the sort key `k` times comes back to the sort it started from
/// exactly when `k` is a multiple of seven.
pub proof fn lemma_sorts_return_every_seventh_press(sort: RegionSort, k: nat)
    ensures
        (sorts_after(sort, k) == sort) <==> k % 7 == 0,
{
    lemma_sort_position_after(sort, k);
    let p = sort_position(sort);
    assert(((p + k) % 7 == p) <==> k % 7 == 0) by {
        vstd::arithmetic::div_mod::lemma_add_mod_noop(p, k as int, 7);
        vstd::arithmetic::div_mod::lemma_small_mod(p as nat, 7);
        let r = k % 7;
        assert(0 <= r < 7);
        assert((p + r) % 7 == p <==> r == 0);
    }
    let q = sorts_after(sort, k);
    assert(sort_position(q) == sort_position(sort) ==> q == sort);
}

/// The scrollback never outgrows its limit.
pub proof fn lemma_log_stays_bounded(log: Seq<LogEntry>, scroll: usize, entry: LogEntry, limit: nat)
    requires
        log.len() <= limit,
    ensures
        logged(log, scroll, entry, limit).0.len() <= limit,
{
}

/// A warning or error that repeats the last line leaves the scrollback as it
/// was; anything else lands at its end.
pub proof fn lemma_log_collapses_only_repeated_complaints(
    log: Seq<LogEntry>,
    scroll: usize,
    entry: LogEntry,
    limit: nat,
)
    requires
        limit > 0,
    ensures
        ({
            let noisy = entry.kind == Kind::Warn || entry.kind == Kind::Error;
            let repeat = log.len() > 0 && log.last().message@ == entry.message@ && log.last().kind == entry.kind;
            &&& noisy && repeat ==> logged(log, scroll, entry, limit) == (log, scroll as int)
            &&& !(noisy && repeat) ==> logged(log, scroll, entry, limit).0.last() == entry
        }),
{
}

/// Someone scrolled back stays on the same lines as new ones arrive: the
/// number of lines below the top of the view does not change.
pub proof fn lemma_scrollback_holds_position(log: Seq<LogEntry>, scroll: usize, entry: LogEntry, limit: nat)
    requires
        log.len() <= limit,
        0 < scroll <= log.len(),
    ensures
        logged(log, scroll, entry, limit).0.len() - logged(log, scroll, entry, limit).1 == log.len() - scroll,
{
}

/// After a region list arrives, the selection names a row of it and the table
/// starts at or above the selection, so the selection is never hidden.
pub proof fn lemma_selection_stays_visible(selected: usize, offset: usize, count: nat)
    ensures
        count > 0 ==> clamped_selection(selected, offset, count).0 < count,
        clamped_selection(selected, offset, count).1 <= clamped_selection(selected, offset, count).0,
        count == 0 ==> clamped_selection(selected, offset, count) == (0usize, 0usize),
        selected < count && offset <= selected ==> clamped_selection(selected, offset, count) == (selected, offset),
{
}

/// Backspace takes back the character just typed, and the cursor with it.
pub proof fn lemma_backspace_undoes_typing(text: Seq<char>, cursor: nat, ch: char)
    requires
        cursor <= text.len(),
    ensures
        text.insert(cursor as int, ch).remove(cursor as int) == text,
{
    assert(text.insert(cursor as int, ch).remove(cursor as int) =~= text);
}

} // verus!
