//! Which process is the server's JVM.
//!
//! CPU and memory cannot come over RCON: the game has no idea how much CPU it
//! is using. So mctop finds the JVM process itself and samples it. Reading the
//! process table is the caller's part; the choice of process is made here.

use vstd::prelude::*;

use regex::Regex;

use crate::config::{joined, ProcessConfig};
use crate::source::parse::strings_view;
use crate::text::{chars_of, push_str, string_from};

verus! {

#[verifier::external_type_specification]
#[verifier::external_body]
pub struct ExRegex(Regex);

/// What `Regex::new` gives for `pattern`: `Ok` when it compiles, else the
/// text of the error it fails with.
pub uninterp spec fn compiled(pattern: Seq<char>) -> Result<(), Seq<char>>;

/// What `Regex::is_match` gives for the regex compiled from `pattern`, on
/// `text`.
pub uninterp spec fn pattern_matches(pattern: Seq<char>, text: Seq<char>) -> bool;

/// Compile `pattern` with `Regex::new`, or describe why it does not compile.
#[verifier::external_body]
fn compile(pattern: &str) -> (r: Result<Regex, String>)
    ensures
        match (r, compiled(pattern@)) {
            (Ok(_), Ok(_)) => true,
            (Err(got), Err(want)) => got@ == want,
            _ => false,
        },
{
    Regex::new(pattern).map_err(|error| error.to_string())
}

/// A compiled pattern, kept with its text.
pub struct Matcher {
    pattern: String,
    regex: Regex,
}

impl View for Matcher {
    type V = Seq<char>;

    closed spec fn view(&self) -> Seq<char> {
        self.pattern@
    }
}

/// Whether the compiled pattern of `matcher` matches anywhere in `text`,
/// from `Regex::is_match`. The regex in a [`Matcher`] is always the one
/// compiled from its text, since [`Matcher::new`] is the only way to make one.
#[verifier::external_body]
fn is_match(matcher: &Matcher, text: &str) -> (r: bool)
    ensures
        r == pattern_matches(matcher@, text@),
{
    matcher.regex.is_match(text)
}

impl Matcher {
    /// Compile `pattern`.
    pub fn new(pattern: &str) -> (r: Result<Matcher, String>)
        ensures
            match (r, compiled(pattern@)) {
                (Ok(matcher), Ok(_)) => matcher@ == pattern@,
                (Err(got), Err(want)) => got@ == want,
                _ => false,
            },
    {
        match compile(pattern) {
            Ok(regex) => Ok(Matcher { pattern: pattern.to_owned(), regex }),
            Err(error) => Err(error),
        }
    }

    /// Whether the pattern matches anywhere in `text`.
    pub fn is_match(&self, text: &str) -> (r: bool)
        ensures
            r == pattern_matches(self@, text@),
    {
        is_match(self, text)
    }
}

/// A process as the process table shows it.
#[derive(Debug, Clone)]
pub struct Candidate {
    pub pid: u32,
    /// Whether the entry is a thread of another process rather than a process.
    pub thread: bool,
    pub name: String,
    /// The command line, one argument per element.
    pub command: Vec<String>,
    /// Resident set size in bytes.
    pub memory: u64,
}

/// Whether `part` occurs in `text`.
pub open spec fn has_part(text: Seq<char>, part: Seq<char>) -> bool {
    exists|i: int| 0 <= i && i + part.len() <= text.len() && #[trigger] text.subrange(i, i + part.len()) == part
}

/// Whether a process name looks like a Java runtime.
pub open spec fn java_named(name: Seq<char>) -> bool {
    has_part(name, "java"@) || has_part(name, "jre"@) || has_part(name, "jdk"@)
}

/// Whether `candidate` could be the server: a process rather than a thread
/// (on Linux each JVM thread shows up alongside the process that owns it,
/// sharing its name and memory, and the JDK tools cannot attach to one), named
/// like a Java runtime, whose command line matches the pattern.
pub open spec fn could_be_server(candidate: Candidate, pattern: Seq<char>) -> bool {
    &&& !candidate.thread
    &&& java_named(candidate.name@)
    &&& pattern_matches(pattern, joined(strings_view(candidate.command@)))
}

/// Among the first `n` candidates, the one that could be the server with the
/// largest resident set; among equals, the later one.
pub open spec fn largest_server(candidates: Seq<Candidate>, pattern: Seq<char>, n: int) -> Option<int>
    decreases n,
{
    if n <= 0 {
        None
    } else {
        let before = largest_server(candidates, pattern, n - 1);
        if could_be_server(candidates[n - 1], pattern) && (match before {
            Some(b) => candidates[n - 1].memory >= candidates[b].memory,
            None => true,
        }) {
            Some(n - 1)
        } else {
            before
        }
    }
}

fn contains_part(text: &Vec<char>, part: &str) -> (r: bool)
    ensures
        r == has_part(text@, part@),
{
    let needle = chars_of(part);
    if needle.len() == 0 {
        assert(text@.subrange(0, 0 + part@.len() as int) =~= part@);
        return true;
    }
    if needle.len() > text.len() {
        return false;
    }
    let last = text.len() - needle.len();
    let mut i: usize = 0;
    while i <= last
        invariant
            needle@ == part@,
            needle@.len() > 0,
            last + needle.len() == text.len(),
            i <= last + 1,
            forall|k: int| 0 <= k < i ==> #[trigger] text@.subrange(k, k + needle@.len()) != needle@,
        decreases text@.len() - i,
    {
        let mut j: usize = 0;
        let mut same = true;
        while j < needle.len()
            invariant
                i <= last,
                last + needle.len() == text.len(),
                j <= needle@.len(),
                same == (forall|m: int| 0 <= m < j ==> text@[i + m] == needle@[m]),
            decreases needle@.len() - j,
        {
            if text[i + j] != needle[j] {
                same = false;
            }
            j += 1;
        }
        if same {
            assert(text@.subrange(i as int, i + needle@.len()) =~= needle@);
            return true;
        }
        proof {
            let m = choose|m: int| 0 <= m < needle@.len() && text@[i + m] != needle@[m];
            assert(text@.subrange(i as int, i + needle@.len())[m] != needle@[m]);
        }
        i += 1;
    }
    proof {
        assert forall|k: int| 0 <= k && k + part@.len() <= text@.len() implies #[trigger] text@.subrange(
            k,
            k + part@.len(),
        ) != part@ by {
            assert(k < i);
        }
    }
    false
}

fn joined_words(words: &Vec<String>) -> (r: String)
    ensures
        r@ == joined(strings_view(words@)),
{
    let mut out: Vec<char> = Vec::new();
    let mut i: usize = 0;
    while i < words.len()
        invariant
            i <= words@.len(),
            out@ == joined(strings_view(words@).take(i as int)),
        decreases words@.len() - i,
    {
        proof {
            assert(strings_view(words@).take(i + 1).drop_last() =~= strings_view(words@).take(i as int));
        }
        if i > 0 {
            out.push(' ');
        }
        push_str(&mut out, words[i].as_str());
        i += 1;
    }
    assert(strings_view(words@).take(i as int) =~= strings_view(words@));
    string_from(&out)
}

/// Follows one process across samples: the pinned one when the config names
/// a PID, otherwise the JVM whose command line matches the pattern.
pub struct ProcessWatcher {
    pattern: Option<Matcher>,
    pinned: Option<u32>,
    current: Option<u32>,
}

impl ProcessWatcher {
    /// A watcher for `config`. The pattern only matters, and is only
    /// compiled, when no PID is pinned.
    pub fn new(config: &ProcessConfig) -> (r: Result<ProcessWatcher, String>)
        ensures
            config.pid is Some ==> (r matches Ok(watcher) && watcher.pinned_pid() == config.pid
                && watcher.watched_pid() is None),
            config.pid is None ==> match (r, compiled(config.match_pattern@)) {
                (Ok(watcher), Ok(_)) => watcher.pinned_pid() is None && watcher.watched_pid() is None
                    && watcher.search_pattern() == Some(config.match_pattern@),
                (Err(got), Err(want)) => got@ == "process.match_pattern: "@ + want,
                _ => false,
            },
    {
        match config.pid {
            Some(pid) => Ok(ProcessWatcher { pattern: None, pinned: Some(pid), current: None }),
            None => match Matcher::new(config.match_pattern.as_str()) {
                Ok(matcher) => Ok(ProcessWatcher { pattern: Some(matcher), pinned: None, current: None }),
                Err(error) => {
                    let mut message = chars_of("process.match_pattern: ");
                    push_str(&mut message, error.as_str());
                    Err(string_from(&message))
                },
            },
        }
    }

    /// The pinned PID, if any.
    pub closed spec fn pinned_pid(&self) -> Option<u32> {
        self.pinned
    }

    /// The text of the search pattern, when searching.
    pub closed spec fn search_pattern(&self) -> Option<Seq<char>> {
        match self.pattern {
            Some(matcher) => Some(matcher@),
            None => None,
        }
    }

    /// The PID being watched.
    pub closed spec fn watched_pid(&self) -> Option<u32> {
        self.current
    }

    /// The PID being watched, if any.
    pub fn watched(&self) -> (r: Option<u32>)
        ensures
            r == self.watched_pid(),
    {
        self.current
    }

    /// Whether the next sample has to read the whole process table: only
    /// while looking for the server, since refreshing a single PID is far
    /// cheaper.
    pub fn searching(&self) -> (r: bool)
        ensures
            r == (self.watched_pid() is None),
    {
        self.current.is_none()
    }

    /// The watched process is gone or still there, after refreshing it alone.
    pub fn refreshed(&mut self, alive: bool)
        ensures
            final(self).pinned_pid() == old(self).pinned_pid(),
            final(self).search_pattern() == old(self).search_pattern(),
            final(self).watched_pid() == if alive { old(self).watched_pid() } else { None },
    {
        if !alive {
            self.current = None;
        }
    }

    /// The server process in `table`: the pinned PID when it is present,
    /// taken as given, thread or not, since the operator may know something
    /// the search does not; otherwise the candidate with the largest resident
    /// set among those that could be the server, which is reliably the game
    /// server rather than a build tool or a launcher sharing the directory.
    pub fn find(&self, table: &Vec<Candidate>) -> (r: Option<u32>)
        ensures
            self.pinned_pid() matches Some(pinned) ==> r == (if exists|i: int|
                0 <= i < table@.len() && #[trigger] table@[i].pid == pinned {
                Some(pinned)
            } else {
                None
            }),
            self.pinned_pid() is None ==> match self.search_pattern() {
                None => r is None,
                Some(pattern) => match largest_server(table@, pattern, table@.len() as int) {
                    Some(k) => r == Some(table@[k].pid),
                    None => r is None,
                },
            },
    {
        if let Some(pinned) = self.pinned {
            let mut i: usize = 0;
            while i < table.len()
                invariant
                    i <= table@.len(),
                    self.pinned == Some(pinned),
                    forall|j: int| 0 <= j < i ==> #[trigger] table@[j].pid != pinned,
                decreases table@.len() - i,
            {
                if table[i].pid == pinned {
                    assert(table@[i as int].pid == pinned);
                    return Some(pinned);
                }
                i += 1;
            }
            return None;
        }
        let matcher = match &self.pattern {
            Some(matcher) => matcher,
            None => return None,
        };
        let ghost pattern = matcher@;
        let mut best: Option<usize> = None;
        let mut i: usize = 0;
        while i < table.len()
            invariant
                i <= table@.len(),
                pattern == matcher@,
                match largest_server(table@, pattern, i as int) {
                    Some(k) => best matches Some(b) && b == k && 0 <= k < i,
                    None => best is None,
                },
            decreases table@.len() - i,
        {
            let candidate = &table[i];
            let eligible = if candidate.thread {
                false
            } else {
                let name = chars_of(candidate.name.as_str());
                if contains_part(&name, "java") || contains_part(&name, "jre") || contains_part(&name, "jdk") {
                    let line = joined_words(&candidate.command);
                    matcher.is_match(line.as_str())
                } else {
                    false
                }
            };
            if eligible {
                let wins = match best {
                    Some(b) => candidate.memory >= table[b].memory,
                    None => true,
                };
                if wins {
                    best = Some(i);
                }
            }
            i += 1;
        }
        match best {
            Some(b) => Some(table[b].pid),
            None => None,
        }
    }

    /// Look for the server in a freshly read `table`.
    pub fn located(&mut self, table: &Vec<Candidate>)
        ensures
            final(self).pinned_pid() == old(self).pinned_pid(),
            final(self).search_pattern() == old(self).search_pattern(),
            final(self).watched_pid() == old(self).find_spec(table@),
    {
        self.current = self.find(table);
    }

    /// What [`ProcessWatcher::find`] gives for a table.
    pub closed spec fn find_spec(&self, table: Seq<Candidate>) -> Option<u32> {
        match self.pinned {
            Some(pinned) => if exists|i: int| 0 <= i < table.len() && #[trigger] table[i].pid == pinned {
                Some(pinned)
            } else {
                None
            },
            None => match self.pattern {
                None => None,
                Some(matcher) => match largest_server(table, matcher@, table.len() as int) {
                    Some(k) => Some(table[k].pid),
                    None => None,
                },
            },
        }
    }
}

} // verus!
