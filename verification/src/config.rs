//! Configuration: the settings mctop runs with, and their defaults.
//!
//! Reading the file, the environment, and the command line happens around
//! this module; what lives here is the shape of the settings and the rules
//! applied to them.

use vstd::prelude::*;

use crate::metrics::{UNIT, opt_text, copy_opt};
use crate::source::parse::{line_spans, lines_of, piece};
use crate::text::{is_space, space, chars_of, push_all, push_str, string_from, trim, trim_bounds};

verus! {

/// Environment variable holding the RCON password.
pub const PASSWORD_ENV: &'static str = "MCTOP_RCON_PASSWORD";

/// The whole of `mctop`'s configuration.
#[derive(Debug, Clone)]
pub struct Config {
    pub server: ServerConfig,
    pub rcon: RconConfig,
    pub refresh: RefreshConfig,
    pub commands: CommandConfig,
    pub process: ProcessConfig,
    pub jvm: JvmConfig,
    pub ui: UiConfig,
    /// World directories to measure on disk. Empty means "discover them".
    pub worlds: Vec<WorldConfig>,
}

/// Cosmetic details about the server being watched.
#[derive(Debug, Clone)]
pub struct ServerConfig {
    /// Label shown in the header. Defaults to the RCON host.
    pub name: Option<String>,
    /// Directory the server runs from. Used to discover worlds.
    pub directory: Option<String>,
}

/// How to reach the server's RCON port.
#[derive(Debug, Clone)]
pub struct RconConfig {
    /// `host` or `host:port`; the port defaults to 25575.
    pub address: String,
    /// Password in plain text. Prefer `password_file` or [`PASSWORD_ENV`].
    pub password: Option<String>,
    /// File whose first line is the password.
    pub password_file: Option<String>,
    /// How long to wait for a connection before giving up.
    pub connect_timeout_ms: u64,
    /// How long to wait for a single command's response.
    pub command_timeout_ms: u64,
    /// How long to wait before retrying a dropped connection.
    pub reconnect_delay_ms: u64,
}

/// Polling intervals. Each collector runs on its own clock so that a cheap
/// metric is not held back by an expensive one.
#[derive(Debug, Clone, Copy)]
pub struct RefreshConfig {
    /// TPS and MSPT polling.
    pub tick_ms: u64,
    /// Per-region detail polling.
    pub region_ms: u64,
    /// Player list and version polling.
    pub roster_ms: u64,
    /// CPU, memory, and JVM heap sampling.
    pub process_ms: u64,
    /// World size scanning, which walks the disk and is deliberately slow.
    pub disk_secs: u64,
    /// Screen redraws.
    pub draw_ms: u64,
}

/// `value`, raised to `min` when it is below it.
pub open spec fn at_least(value: u64, min: u64) -> u64 {
    if value < min { min } else { value }
}

impl RefreshConfig {
    /// Milliseconds between tick readings, never under 200.
    pub fn tick(&self) -> (r: u64)
        ensures
            r == at_least(self.tick_ms, 200),
    {
        floor_ms(self.tick_ms, 200)
    }

    /// Milliseconds between region readings, never under 200.
    pub fn region(&self) -> (r: u64)
        ensures
            r == at_least(self.region_ms, 200),
    {
        floor_ms(self.region_ms, 200)
    }

    /// Milliseconds between player-list readings, never under 500.
    pub fn roster(&self) -> (r: u64)
        ensures
            r == at_least(self.roster_ms, 500),
    {
        floor_ms(self.roster_ms, 500)
    }

    /// Milliseconds between process samples, never under 200.
    pub fn process(&self) -> (r: u64)
        ensures
            r == at_least(self.process_ms, 200),
    {
        floor_ms(self.process_ms, 200)
    }

    /// Seconds between disk scans, never under 5.
    pub fn disk(&self) -> (r: u64)
        ensures
            r == at_least(self.disk_secs, 5),
    {
        floor_ms(self.disk_secs, 5)
    }

    /// Milliseconds between redraws, never under 50.
    pub fn draw(&self) -> (r: u64)
        ensures
            r == at_least(self.draw_ms, 50),
    {
        floor_ms(self.draw_ms, 50)
    }
}

impl Default for RefreshConfig {
    fn default() -> (r: RefreshConfig)
        ensures
            r.tick_ms == 1000 && r.region_ms == 2000 && r.roster_ms == 5000 && r.process_ms == 2000
                && r.disk_secs == 120 && r.draw_ms == 250,
    {
        RefreshConfig {
            tick_ms: 1_000,
            region_ms: 2_000,
            roster_ms: 5_000,
            process_ms: 2_000,
            disk_secs: 120,
            draw_ms: 250,
        }
    }
}

/// `value`, or `min` when that is larger.
pub fn floor_ms(value: u64, min: u64) -> (r: u64)
    ensures
        r == at_least(value, min),
{
    if value < min {
        min
    } else {
        value
    }
}

/// The console commands each metric is read from. Overridable because server
/// forks word their output differently, and plugins such as Spark can stand in.
#[derive(Debug, Clone)]
pub struct CommandConfig {
    pub tps: String,
    pub mspt: String,
    /// Source of per-region detail. On Folia this is the same `tps` report.
    pub regions: String,
    pub players: String,
    pub version: String,
}

/// How to find the server's JVM process for CPU and memory readings.
#[derive(Debug, Clone)]
pub struct ProcessConfig {
    /// Watch this PID exactly. `None` means search.
    pub pid: Option<u32>,
    /// Regex matched against the full command line when searching.
    pub match_pattern: String,
    /// Sample the local process at all. Turn off when watching a remote server.
    pub enabled: bool,
}

/// A JDK tool to invoke: either a bare program name or a program with leading
/// arguments.
///
/// The list form exists so the tools can be run as a different user than mctop
/// itself. `jstat` reads a file the JVM creates mode 0600, and `jcmd` attaches
/// over a socket that checks the caller's user and group, so neither can be
/// reached from an account that merely shares the server's group. Rather than
/// force the whole dashboard to run as the server's user, point the tool at a
/// wrapper such as `["sudo", "-n", "-u", "minecraft", "jstat"]`.
#[derive(Debug, PartialEq, Eq)]
pub struct Tool(Vec<String>);

/// Why a JDK tool was refused.
#[derive(Debug, Clone, PartialEq, Eq)]
pub struct ToolError;

impl ToolError {
    pub fn message(&self) -> (r: String)
        ensures
            r@ == "a JDK tool needs at least a program name"@,
    {
        "a JDK tool needs at least a program name".to_owned()
    }
}

/// The words of a tool, as text.
pub open spec fn words_text(words: Seq<String>) -> Seq<Seq<char>> {
    words.map_values(|word: String| word@)
}

/// Whether a word holds anything other than whitespace.
pub open spec fn has_content(word: Seq<char>) -> bool {
    exists|i: int| 0 <= i < word.len() && !is_space(#[trigger] word[i])
}

/// `words` joined with single spaces.
pub open spec fn joined(words: Seq<Seq<char>>) -> Seq<char>
    decreases words.len(),
{
    if words.len() == 0 {
        Seq::empty()
    } else if words.len() == 1 {
        words[0]
    } else {
        joined(words.drop_last()) + seq![' '] + words.last()
    }
}

/// Whether `word` holds a character that is not whitespace.
fn is_content(word: &String) -> (r: bool)
    ensures
        r == has_content(word@),
{
    let chars = chars_of(word.as_str());
    let mut i: usize = 0;
    while i < chars.len()
        invariant
            i <= chars.len(),
            chars@ == word@,
            forall|j: int| 0 <= j < i ==> is_space(#[trigger] chars@[j]),
        decreases chars.len() - i,
    {
        if !space(chars[i]) {
            return true;
        }
        i += 1;
    }
    false
}

impl View for Tool {
    type V = Seq<Seq<char>>;

    closed spec fn view(&self) -> Seq<Seq<char>> {
        words_text(self.0@)
    }
}

impl Tool {
    /// Build from words, e.g. `["sudo", "-n", "-u", "minecraft", "jstat"]`.
    /// At least one word must hold something other than whitespace.
    pub fn from_words(words: Vec<String>) -> (r: Result<Tool, ToolError>)
        ensures
            r.is_ok() <==> exists|i: int| 0 <= i < words@.len() && has_content(#[trigger] words@[i]@),
            r matches Ok(tool) ==> tool@ == words_text(words@),
    {
        let mut i: usize = 0;
        while i < words.len()
            invariant
                i <= words@.len(),
                forall|j: int| 0 <= j < i ==> !has_content(#[trigger] words@[j]@),
            decreases words@.len() - i,
        {
            if is_content(&words[i]) {
                return Ok(Tool(words));
            }
            i += 1;
        }
        Err(ToolError)
    }

    /// A tool that is just the named program.
    pub fn program(name: &str) -> (r: Tool)
        ensures
            r@ == seq![name@],
    {
        let mut words: Vec<String> = Vec::new();
        words.push(name.to_owned());
        let r = Tool(words);
        assert(r@ =~= seq![name@]);
        r
    }

    /// The words, as given.
    pub fn words(&self) -> (r: &Vec<String>)
        ensures
            words_text(r@) == self@,
    {
        &self.0
    }

    /// The program to run and the arguments that come before the tool's own.
    /// `None` when the tool has been configured empty.
    pub fn parts(&self) -> (r: Option<(&str, &[String])>)
        ensures
            r.is_none() <==> self@.len() == 0,
            r matches Some((program, leading)) ==> program@ == self@[0] && words_text(leading@)
                == self@.drop_first(),
    {
        if self.0.len() == 0 {
            return None;
        }
        let (first, rest) = self.0.as_slice().split_at(1);
        proof {
            assert(first@ == self.0@.subrange(0, 1));
            assert(words_text(rest@) =~= words_text(self.0@).drop_first());
        }
        Some((first[0].as_str(), rest))
    }

    /// How to name this tool in a message: its words joined by spaces.
    pub fn label(&self) -> (r: String)
        ensures
            r@ == joined(self@),
    {
        let mut out: Vec<char> = Vec::new();
        let mut i: usize = 0;
        while i < self.0.len()
            invariant
                i <= self.0@.len(),
                out@ == joined(words_text(self.0@).take(i as int)),
            decreases self.0@.len() - i,
        {
            proof {
                let w = words_text(self.0@);
                assert(w.take(i + 1).drop_last() =~= w.take(i as int));
                assert(w.take(i + 1).last() == self.0@[i as int]@);
            }
            if i > 0 {
                out.push(' ');
            }
            push_str(&mut out, self.0[i].as_str());
            proof {
                let w = words_text(self.0@);
                if i == 0 {
                    assert(w.take(1) =~= seq![self.0@[0]@]);
                }
            }
            i += 1;
        }
        assert(words_text(self.0@).take(i as int) =~= words_text(self.0@));
        string_from(&out)
    }
}

impl Clone for Tool {
    fn clone(&self) -> (r: Tool)
        ensures
            r@ == self@,
    {
        let mut words: Vec<String> = Vec::new();
        let mut i: usize = 0;
        while i < self.0.len()
            invariant
                i <= self.0@.len(),
                words_text(words@) == words_text(self.0@).take(i as int),
            decreases self.0@.len() - i,
        {
            let word = self.0[i].clone();
            let ghost before = words@;
            words.push(word);
            proof {
                assert(words@ == before.push(word));
                assert(words_text(words@) =~= words_text(before).push(word@));
                assert(words_text(self.0@).take(i + 1) =~= words_text(self.0@).take(i as int).push(
                    self.0@[i as int]@,
                ));
            }
            i += 1;
        }
        assert(words_text(self.0@).take(i as int) =~= words_text(self.0@));
        Tool(words)
    }
}

/// Heap readings, which come from the JDK's own tools rather than RCON.
#[derive(Debug, Clone)]
pub struct JvmConfig {
    pub enabled: bool,
    /// How to run `jcmd`. A bare name is looked up on `PATH`; a list may put a
    /// wrapper such as `sudo -n -u minecraft` in front of it.
    pub jcmd: Tool,
    /// How to run `jstat`, in the same two forms.
    pub jstat: Tool,
    /// Window over which the heap low-water mark is treated as the
    /// after-collection occupancy when no collection has been observed.
    pub heap_after_gc_window_secs: u64,
}

/// Presentation.
#[derive(Debug, Clone)]
pub struct UiConfig {
    /// Samples retained for the history charts.
    pub history: usize,
    /// Rows of scrollback in the Console tab.
    pub log_lines: usize,
    /// TPS at or above this is healthy, in [`UNIT`]s.
    pub tps_good: i64,
    /// TPS at or above this is a warning; below it is critical.
    pub tps_warn: i64,
    /// MSPT at or below this is healthy, in [`UNIT`]s.
    pub mspt_good: i64,
    /// MSPT at or below this is a warning; above it is critical.
    pub mspt_warn: i64,
    /// Draw the borders with rounded corners.
    pub rounded_borders: bool,
}

/// A world directory to measure.
#[derive(Debug, Clone)]
pub struct WorldConfig {
    /// Display name. Defaults to the directory's file name.
    pub name: Option<String>,
    pub path: String,
}

impl Config {
    /// The directory to look for worlds in: the server directory, when the
    /// config lists no worlds of its own.
    pub fn discovery_directory(&self) -> (r: Option<&String>)
        ensures
            self.worlds@.len() > 0 ==> r is None,
            self.worlds@.len() == 0 ==> match self.server.directory {
                Some(directory) => r matches Some(given) && given@ == directory@,
                None => r is None,
            },
    {
        if self.worlds.len() > 0 {
            None
        } else {
            self.server.directory.as_ref()
        }
    }

    /// Worlds to measure: the configured ones, else those `discovered` under
    /// `server.directory`, else none.
    pub fn resolved_worlds(&self, discovered: Vec<WorldConfig>) -> (r: Vec<WorldConfig>)
        ensures
            self.worlds@.len() > 0 ==> r@.len() == self.worlds@.len() && forall|i: int|
                0 <= i < r@.len() ==> opt_text(#[trigger] r@[i].name) == opt_text(self.worlds@[i].name)
                    && r@[i].path@ == self.worlds@[i].path@,
            self.worlds@.len() == 0 && self.server.directory is Some ==> r@ == discovered@,
            self.worlds@.len() == 0 && self.server.directory is None ==> r@.len() == 0,
    {
        if self.worlds.len() > 0 {
            let mut out: Vec<WorldConfig> = Vec::new();
            let mut i: usize = 0;
            while i < self.worlds.len()
                invariant
                    i <= self.worlds@.len(),
                    out@.len() == i,
                    forall|j: int|
                        0 <= j < i ==> opt_text(#[trigger] out@[j].name) == opt_text(self.worlds@[j].name)
                            && out@[j].path@ == self.worlds@[j].path@,
                decreases self.worlds@.len() - i,
            {
                let world = &self.worlds[i];
                out.push(WorldConfig { name: copy_opt(&world.name), path: world.path.clone() });
                i += 1;
            }
            out
        } else if self.server.directory.is_some() {
            discovered
        } else {
            Vec::new()
        }
    }

    /// The label for the header: the configured name, else the RCON address.
    pub fn display_name(&self) -> (r: String)
        ensures
            r@ == match self.server.name {
                Some(name) => name@,
                None => self.rcon.address@,
            },
    {
        match &self.server.name {
            Some(name) => name.clone(),
            None => self.rcon.address.clone(),
        }
    }
}

impl Default for ServerConfig {
    fn default() -> (r: ServerConfig)
        ensures
            r.name.is_none() && r.directory.is_none(),
    {
        ServerConfig { name: None, directory: None }
    }
}

/// The first line of `text`, trimmed; empty when there is none.
pub open spec fn first_line(text: Seq<char>) -> Seq<char> {
    let lines = lines_of(text);
    if lines.len() > 0 {
        trim(lines[0])
    } else {
        Seq::empty()
    }
}

/// Whether a value read from the environment counts as set.
pub open spec fn set_in_env(value: Option<String>) -> bool {
    value matches Some(text) && text@.len() > 0
}

/// The password that the environment, the password file, and the inline
/// setting come to, in that order of precedence.
pub open spec fn password_from(
    config: RconConfig,
    env_value: Option<String>,
    file_text: Option<Result<String, String>>,
) -> Result<Seq<char>, Seq<char>> {
    if set_in_env(env_value) {
        Ok(env_value.unwrap()@)
    } else if config.password_file is Some {
        let path = config.password_file.unwrap()@;
        match file_text {
            Some(Ok(text)) => Ok(first_line(text@)),
            Some(Err(error)) => Err("reading password file "@ + path + ": "@ + error@),
            None => Err("reading password file "@ + path),
        }
    } else {
        match config.password {
            Some(password) => Ok(password@),
            None => Err(
                "no RCON password: set MCTOP_RCON_PASSWORD, `rcon.password_file`, or `rcon.password`"@,
            ),
        }
    }
}

impl RconConfig {
    /// The file the password has to be read from, given what the
    /// [`PASSWORD_ENV`] variable holds: `None` when the environment settles
    /// it or no file is configured.
    pub fn password_file_wanted(&self, env_value: &Option<String>) -> (r: Option<&String>)
        ensures
            set_in_env(*env_value) ==> r is None,
            !set_in_env(*env_value) ==> match self.password_file {
                Some(path) => r matches Some(given) && given@ == path@,
                None => r is None,
            },
    {
        match env_value {
            Some(value) => {
                if chars_of(value.as_str()).len() > 0 {
                    return None;
                }
            },
            None => {},
        }
        self.password_file.as_ref()
    }

    /// The password to log in with. `env_value` is what the [`PASSWORD_ENV`]
    /// variable holds; `file_text` is what reading the file named by
    /// [`RconConfig::password_file_wanted`] gave, or the error it failed with.
    pub fn resolve_password(
        &self,
        env_value: Option<String>,
        file_text: Option<Result<String, String>>,
    ) -> (r: Result<String, String>)
        ensures
            match (r, password_from(*self, env_value, file_text)) {
                (Ok(got), Ok(want)) => got@ == want,
                (Err(got), Err(want)) => got@ == want,
                _ => false,
            },
    {
        if let Some(value) = &env_value {
            if chars_of(value.as_str()).len() > 0 {
                return Ok(value.clone());
            }
        }
        if let Some(path) = &self.password_file {
            return match file_text {
                Some(Ok(text)) => {
                    let chars = chars_of(text.as_str());
                    let spans = line_spans(&chars);
                    if spans.len() > 0 {
                        let (a, b) = spans[0];
                        let (x, y) = trim_bounds(&chars, a, b);
                        proof {
                            assert(lines_of(chars@)[0] == chars@.subrange(a as int, b as int));
                        }
                        Ok(string_from(&piece(&chars, x, y)))
                    } else {
                        Ok(string_from(&Vec::new()))
                    }
                },
                Some(Err(error)) => {
                    let mut message = chars_of("reading password file ");
                    push_str(&mut message, path.as_str());
                    push_str(&mut message, ": ");
                    push_str(&mut message, error.as_str());
                    Err(string_from(&message))
                },
                None => {
                    let mut message = chars_of("reading password file ");
                    push_str(&mut message, path.as_str());
                    Err(string_from(&message))
                },
            };
        }
        match &self.password {
            Some(password) => Ok(password.clone()),
            None => Err(
                "no RCON password: set MCTOP_RCON_PASSWORD, `rcon.password_file`, or `rcon.password`".to_owned(),
            ),
        }
    }
}

impl Default for RconConfig {
    fn default() -> (r: RconConfig)
        ensures
            r.address@ == "127.0.0.1:25575"@,
            r.password.is_none() && r.password_file.is_none(),
            r.connect_timeout_ms == 5000 && r.command_timeout_ms == 5000
                && r.reconnect_delay_ms == 5000,
    {
        RconConfig {
            address: "127.0.0.1:25575".to_owned(),
            password: None,
            password_file: None,
            connect_timeout_ms: 5_000,
            command_timeout_ms: 5_000,
            reconnect_delay_ms: 5_000,
        }
    }
}

impl Default for CommandConfig {
    fn default() -> (r: CommandConfig)
        ensures
            r.tps@ == "tps"@,
            r.mspt@ == "mspt"@,
            r.regions@ == "tps"@,
            r.players@ == "list"@,
            r.version@ == "version"@,
    {
        CommandConfig {
            tps: "tps".to_owned(),
            mspt: "mspt".to_owned(),
            regions: "tps".to_owned(),
            players: "list".to_owned(),
            version: "version".to_owned(),
        }
    }
}

impl Default for ProcessConfig {
    fn default() -> (r: ProcessConfig)
        ensures
            r.pid.is_none(),
            r.match_pattern@ == "(?i)folia|paper|purpur|spigot|craftbukkit|server\\.jar|minecraft"@,
            r.enabled,
    {
        ProcessConfig {
            pid: None,
            match_pattern: "(?i)folia|paper|purpur|spigot|craftbukkit|server\\.jar|minecraft".to_owned(),
            enabled: true,
        }
    }
}

impl Default for JvmConfig {
    fn default() -> (r: JvmConfig)
        ensures
            r.enabled,
            r.jcmd@ == seq!["jcmd"@],
            r.jstat@ == seq!["jstat"@],
            r.heap_after_gc_window_secs == 300,
    {
        JvmConfig {
            enabled: true,
            jcmd: Tool::program("jcmd"),
            jstat: Tool::program("jstat"),
            heap_after_gc_window_secs: 300,
        }
    }
}

impl Default for UiConfig {
    fn default() -> (r: UiConfig)
        ensures
            r.history == 480 && r.log_lines == 500,
            r.tps_good == 19_500_000 && r.tps_warn == 18_000_000,
            r.mspt_good == 25_000_000 && r.mspt_warn == 40_000_000,
            r.rounded_borders,
    {
        UiConfig {
            history: 480,
            log_lines: 500,
            tps_good: 19_500_000,
            tps_warn: 18_000_000,
            mspt_good: 25_000_000,
            mspt_warn: 40_000_000,
            rounded_borders: true,
        }
    }
}

impl Default for Config {
    fn default() -> (r: Config)
        ensures
            r.server.name.is_none() && r.server.directory.is_none(),
            r.rcon.address@ == "127.0.0.1:25575"@,
            r.rcon.password.is_none() && r.rcon.password_file.is_none(),
            r.refresh.tick_ms == 1000 && r.refresh.region_ms == 2000,
            r.commands.tps@ == "tps"@ && r.commands.regions@ == "tps"@,
            r.process.enabled && r.process.pid.is_none(),
            r.jvm.enabled,
            r.ui.history == 480 && r.ui.log_lines == 500,
            r.worlds@.len() == 0,
    {
        Config {
            server: ServerConfig::default(),
            rcon: RconConfig::default(),
            refresh: RefreshConfig::default(),
            commands: CommandConfig::default(),
            process: ProcessConfig::default(),
            jvm: JvmConfig::default(),
            ui: UiConfig::default(),
            worlds: Vec::new(),
        }
    }
}

} // verus!
