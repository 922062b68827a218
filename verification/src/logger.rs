//! The logger's rules: levels and their order, the configuration and the
//! state of the log, the text of a log entry (plain or JSON, with user
//! folders masked), the names of log files and their rotation, and which old
//! log files are compressed or deleted.
use vstd::prelude::*;

use chrono::{Datelike, Timelike};

use crate::text::{
    push_zero_padded, zero_pad,
    chars_of, decimal, decimal_chars, ends_with, find_char, matches_at, occurs_at, parse_unsigned,
    parse_usize, push_all, push_str, seq_contains, seq_ends_with, seq_starts_with, slice_chars,
    starts_with, str_eq, string_from_chars, contains, is_ascii_char, is_ascii_text,
};

verus! {

/// Log levels, from the least to the most severe.
#[derive(Debug, Clone, Copy, PartialEq, Eq, Structural, PartialOrd, Ord, Hash)]
pub enum LogLevel {
    Trace,
    Debug,
    Info,
    Warn,
    Error,
}

/// The severity of a level, from 0 (`Trace`) to 4 (`Error`).
pub open spec fn level_rank(l: LogLevel) -> int {
    match l {
        LogLevel::Trace => 0,
        LogLevel::Debug => 1,
        LogLevel::Info => 2,
        LogLevel::Warn => 3,
        LogLevel::Error => 4,
    }
}

/// The name of a level in log entries.
pub open spec fn level_name(l: LogLevel) -> Seq<char> {
    match l {
        LogLevel::Trace => "TRACE"@,
        LogLevel::Debug => "DEBUG"@,
        LogLevel::Info => "INFO"@,
        LogLevel::Warn => "WARN"@,
        LogLevel::Error => "ERROR"@,
    }
}

/// The upper-case form of a text by the Unicode rules that `str::to_uppercase`
/// follows.
pub uninterp spec fn uppercase(s: Seq<char>) -> Seq<char>;

/// The ASCII upper-case form of a character: `a` to `z` become `A` to `Z`.
pub open spec fn ascii_upper_char(c: char) -> char {
    if 'a' <= c && c <= 'z' {
        ((c as u32) - 32) as char
    } else {
        c
    }
}

/// The ASCII upper-case form of a text.
pub open spec fn ascii_upper(s: Seq<char>) -> Seq<char> {
    s.map_values(|c: char| ascii_upper_char(c))
}

/// `str::to_uppercase`: its result is named by `uppercase`; on an ASCII text
/// it is the ASCII upper-case form (the Unicode mapping of ASCII letters).
#[verifier::external_body]
fn to_uppercase(s: &str) -> (r: String)
    ensures
        r@ == uppercase(s@),
        is_ascii_text(s@) ==> r@ == ascii_upper(s@),
{
    s.to_uppercase()
}

/// The level whose name is `name`.
pub open spec fn level_named(name: Seq<char>) -> Option<LogLevel> {
    if name == "TRACE"@ {
        Some(LogLevel::Trace)
    } else if name == "DEBUG"@ {
        Some(LogLevel::Debug)
    } else if name == "INFO"@ {
        Some(LogLevel::Info)
    } else if name == "WARN"@ {
        Some(LogLevel::Warn)
    } else if name == "ERROR"@ {
        Some(LogLevel::Error)
    } else {
        None
    }
}

impl LogLevel {
    /// The name of the level (`TRACE`, `DEBUG`, `INFO`, `WARN`, `ERROR`).
    pub fn as_str(&self) -> (s: &'static str)
        ensures
            s@ == level_name(*self),
    {
        match self {
            LogLevel::Trace => "TRACE",
            LogLevel::Debug => "DEBUG",
            LogLevel::Info => "INFO",
            LogLevel::Warn => "WARN",
            LogLevel::Error => "ERROR",
        }
    }

    /// The severity of the level.
    pub fn rank(&self) -> (r: u8)
        ensures
            r == level_rank(*self),
    {
        match self {
            LogLevel::Trace => 0,
            LogLevel::Debug => 1,
            LogLevel::Info => 2,
            LogLevel::Warn => 3,
            LogLevel::Error => 4,
        }
    }

    /// Whether this level is at least as severe as `other`.
    pub fn at_least(&self, other: LogLevel) -> (b: bool)
        ensures
            b == (level_rank(*self) >= level_rank(other)),
    {
        self.rank() >= other.rank()
    }

    /// The level named `s` in any letter case (compared after
    /// `str::to_uppercase`); `Invalid log level: {s}` for any other text.
    pub fn parse(s: &str) -> (r: Result<LogLevel, String>)
        ensures
            match level_named(uppercase(s@)) {
                Some(l) => r == Ok::<LogLevel, String>(l),
                None => r matches Err(e) && e@ == "Invalid log level: "@ + s@,
            },
            is_ascii_text(s@) ==> match level_named(ascii_upper(s@)) {
                Some(l) => r == Ok::<LogLevel, String>(l),
                None => r is Err,
            },
    {
        let u = to_uppercase(s);
        let t = u.as_str();
        if str_eq(t, "TRACE") {
            Ok(LogLevel::Trace)
        } else if str_eq(t, "DEBUG") {
            Ok(LogLevel::Debug)
        } else if str_eq(t, "INFO") {
            Ok(LogLevel::Info)
        } else if str_eq(t, "WARN") {
            Ok(LogLevel::Warn)
        } else if str_eq(t, "ERROR") {
            Ok(LogLevel::Error)
        } else {
            let mut m = chars_of("Invalid log level: ");
            push_str(&mut m, s);
            Err(string_from_chars(&m))
        }
    }
}

/// Every level's name is ASCII and parses back to the level, whatever the
/// letter case it is written in.
pub proof fn lemma_level_names_parse_back(l: LogLevel)
    ensures
        is_ascii_text(level_name(l)),
        level_named(ascii_upper(level_name(l))) == Some(l),
{
    reveal_strlit("TRACE");
    reveal_strlit("DEBUG");
    reveal_strlit("INFO");
    reveal_strlit("WARN");
    reveal_strlit("ERROR");
    assert(ascii_upper(level_name(l)) =~= level_name(l));
    match l {
        LogLevel::Trace => {},
        LogLevel::Debug => {
            assert("DEBUG"@[0] != "TRACE"@[0]);
        },
        LogLevel::Info => {
            assert("INFO"@.len() != "TRACE"@.len());
            assert("INFO"@.len() != "DEBUG"@.len());
        },
        LogLevel::Warn => {
            assert("WARN"@.len() != "TRACE"@.len());
            assert("WARN"@.len() != "DEBUG"@.len());
            assert("WARN"@[0] != "INFO"@[0]);
        },
        LogLevel::Error => {
            assert("ERROR"@[0] != "TRACE"@[0]);
            assert("ERROR"@[0] != "DEBUG"@[0]);
            assert("ERROR"@.len() != "INFO"@.len());
            assert("ERROR"@.len() != "WARN"@.len());
        },
    }
}

/// A level's name written in any mix of upper and lower case letters names
/// that level (so `parse` accepts it, by its contract on ASCII texts).
pub proof fn lemma_level_names_ignore_case(s: Seq<char>, l: LogLevel)
    requires
        is_ascii_text(s),
        ascii_upper(s) == level_name(l),
    ensures
        level_named(ascii_upper(s)) == Some(l),
{
    lemma_level_names_parse_back(l);
    assert(ascii_upper(level_name(l)) =~= ascii_upper(ascii_upper(s)));
    assert(ascii_upper(ascii_upper(s)) =~= ascii_upper(s));
}

/// The ASCII lower-case form of a character: `A` to `Z` become `a` to `z`.
pub open spec fn ascii_lower_char(c: char) -> char {
    if 'A' <= c && c <= 'Z' {
        ((c as u32) + 32) as char
    } else {
        c
    }
}

/// The ASCII lower-case form of a text.
pub open spec fn ascii_lower(s: Seq<char>) -> Seq<char> {
    s.map_values(|c: char| ascii_lower_char(c))
}

/// Every level's name, as `as_str` gives it and in lower case, is an ASCII
/// text that names that level, so `from_str` and `parse` give the level back
/// for both.
pub proof fn lemma_level_names_round_trip(l: LogLevel)
    ensures
        is_ascii_text(level_name(l)),
        level_named(ascii_upper(level_name(l))) == Some(l),
        is_ascii_text(ascii_lower(level_name(l))),
        level_named(ascii_upper(ascii_lower(level_name(l)))) == Some(l),
{
    lemma_level_names_parse_back(l);
    let n = level_name(l);
    let low = ascii_lower(n);
    assert forall|i: int| 0 <= i < low.len() implies is_ascii_char(#[trigger] low[i]) by {
        assert(is_ascii_char(n[i]));
    }
    assert(ascii_upper(low) =~= ascii_upper(n));
    assert(ascii_upper(n) =~= n);
    lemma_level_names_ignore_case(low, l);
}

impl std::str::FromStr for LogLevel {
    type Err = String;

    /// The level named `s` in any letter case (see `LogLevel::parse`).
    fn from_str(s: &str) -> (r: Result<Self, Self::Err>)
        ensures
            match level_named(uppercase(s@)) {
                Some(l) => r == Ok::<LogLevel, String>(l),
                None => r matches Err(e) && e@ == "Invalid log level: "@ + s@,
            },
            is_ascii_text(s@) ==> match level_named(ascii_upper(s@)) {
                Some(l) => r == Ok::<LogLevel, String>(l),
                None => r is Err,
            },
    {
        LogLevel::parse(s)
    }
}

impl Default for LogLevel {
    /// `Info`.
    fn default() -> (l: Self)
        ensures
            l == LogLevel::Info,
    {
        LogLevel::Info
    }
}

/// How log entries are written.
#[derive(Debug, Clone, Copy, PartialEq, Eq, Structural)]
pub enum LogFormat {
    /// Plain text (the default).
    Plain,
    /// One JSON object per line, for log collectors.
    Json,
}

impl Default for LogFormat {
    /// `Plain`.
    fn default() -> (f: Self)
        ensures
            f == LogFormat::Plain,
    {
        LogFormat::Plain
    }
}

/// The logger's configuration.
#[derive(Debug, Clone)]
pub struct LoggerConfig {
    /// The folder of the log files.
    pub log_dir: String,
    /// The least severe level that is written.
    pub min_level: LogLevel,
    /// The size in bytes beyond which a new file is started.
    pub max_file_size: u64,
    /// The number of log files kept (0 keeps all).
    pub max_files: usize,
    /// Whether entries carry the thread id.
    pub include_thread_id: bool,
    /// Whether entries carry the source location.
    pub include_location: bool,
    /// Whether user folders in messages are masked.
    pub sanitize_paths: bool,
    /// Plain text or JSON.
    pub log_format: LogFormat,
    /// Whether log files older than a day are compressed.
    pub compress_old_logs: bool,
}

/// The default configuration: the current folder, `Info`, 10 MiB per file,
/// 30 files, thread ids and locations on, masking on, plain text, no
/// compression.
pub open spec fn is_default_config(c: LoggerConfig) -> bool {
    &&& c.log_dir@ == "."@
    &&& c.min_level == LogLevel::Info
    &&& c.max_file_size == 10 * 1024 * 1024
    &&& c.max_files == 30
    &&& c.include_thread_id
    &&& c.include_location
    &&& c.sanitize_paths
    &&& c.log_format == LogFormat::Plain
    &&& !c.compress_old_logs
}

impl Default for LoggerConfig {
    /// The default configuration (see `is_default_config`).
    fn default() -> (c: Self)
        ensures
            is_default_config(c),
    {
        LoggerConfig {
            log_dir: ".".to_owned(),
            min_level: LogLevel::Info,
            max_file_size: 10 * 1024 * 1024,
            max_files: 30,
            include_thread_id: true,
            include_location: true,
            sanitize_paths: true,
            log_format: LogFormat::Plain,
            compress_old_logs: false,
        }
    }
}

/// One log entry.
#[derive(Debug, Clone)]
pub struct LogEntry {
    pub timestamp: String,
    pub level: LogLevel,
    pub target: String,
    pub message: String,
    pub thread_id: Option<u64>,
    pub location: Option<String>,
}

/// What the logger reports about itself.
#[derive(Debug, Clone)]
pub struct LoggerStats {
    pub total_entries: u64,
    pub error_count: u64,
    pub current_file_size: u64,
    pub log_directory: String,
    pub min_level: LogLevel,
}

impl Default for LoggerStats {
    /// No entries, no errors, an empty file, no folder, `Info`.
    fn default() -> (s: Self)
        ensures
            s.total_entries == 0,
            s.error_count == 0,
            s.current_file_size == 0,
            s.log_directory@.len() == 0,
            s.min_level == LogLevel::Info,
    {
        LoggerStats {
            total_entries: 0,
            error_count: 0,
            current_file_size: 0,
            log_directory: String::new(),
            min_level: LogLevel::Info,
        }
    }
}

/// The logger's state: its configuration, whether a log file is open and the
/// date it was opened for, the bytes written to it, the entries and errors
/// written so far, and the user's home folder (for masking).
pub struct LoggerState {
    pub config: LoggerConfig,
    pub file_open: bool,
    pub current_file_date: String,
    pub current_file_size: u64,
    pub total_entries: u64,
    pub error_count: u64,
    pub user_home_dir: Option<String>,
}

/// Where the next entry goes.
#[derive(Debug, Clone, Copy, PartialEq, Eq, Structural)]
pub enum FileChoice {
    /// The open file.
    Current,
    /// A new file named after today's date.
    Dated,
    /// A new file of today with the next sequence number (the open one is
    /// full).
    Sequenced,
}

/// What writing an entry of `bytes` bytes at `level` does to the state: the
/// file size grows by `bytes`, one more entry is counted, and one more error
/// when the entry is an error, each counter wrapping around at 2^64;
/// everything else stays.
pub open spec fn write_recorded(before: LoggerState, after: LoggerState, bytes: u64, level: LogLevel) -> bool {
    &&& after.current_file_size == (before.current_file_size + bytes) % 0x1_0000_0000_0000_0000
    &&& after.total_entries == (before.total_entries + 1) % 0x1_0000_0000_0000_0000
    &&& after.error_count == if level == LogLevel::Error {
        (before.error_count + 1) % 0x1_0000_0000_0000_0000
    } else {
        before.error_count as int
    }
    &&& after.config == before.config
    &&& after.file_open == before.file_open
    &&& after.current_file_date == before.current_file_date
    &&& after.user_home_dir == before.user_home_dir
}

/// The statistics counters: every error is an entry, so there are never more
/// errors than entries.
pub open spec fn counters_consistent(s: LoggerState) -> bool {
    s.error_count <= s.total_entries
}

/// Writing an entry, short of the entry counter running out, keeps the
/// errors within the entries, counts exactly one more entry, and never lowers
/// the error count. (The other calls on the state leave both counters as
/// they are.)
pub proof fn lemma_write_keeps_counters(before: LoggerState, after: LoggerState, bytes: u64, level: LogLevel)
    requires
        write_recorded(before, after, bytes, level),
        counters_consistent(before),
        before.total_entries < u64::MAX,
    ensures
        counters_consistent(after),
        after.total_entries == before.total_entries + 1,
        after.error_count >= before.error_count,
        after.error_count <= before.error_count + 1,
{
}

impl LoggerState {
    /// A logger with the default configuration and no file open.
    pub fn new(user_home_dir: Option<String>) -> (s: Self)
        ensures
            !s.file_open,
            s.current_file_date@.len() == 0,
            s.current_file_size == 0,
            s.total_entries == 0,
            s.error_count == 0,
            s.user_home_dir == user_home_dir,
            is_default_config(s.config),
    {
        LoggerState {
            config: LoggerConfig::default(),
            file_open: false,
            current_file_date: String::new(),
            current_file_size: 0,
            total_entries: 0,
            error_count: 0,
            user_home_dir,
        }
    }

    /// Takes a new configuration; the open file is closed.
    pub fn configure(&mut self, config: LoggerConfig)
        ensures
            final(self).config == config,
            !final(self).file_open,
            final(self).current_file_date@.len() == 0,
            final(self).current_file_size == 0,
            final(self).total_entries == old(self).total_entries,
            final(self).error_count == old(self).error_count,
            final(self).user_home_dir == old(self).user_home_dir,
    {
        self.config = config;
        self.file_open = false;
        self.current_file_date = String::new();
        self.current_file_size = 0;
    }

    /// Moves the log to another folder: the open file is closed. Returns the
    /// message that records the change.
    pub fn change_log_directory(&mut self, new_dir: String) -> (m: String)
        ensures
            final(self).config.log_dir == new_dir,
            final(self).config.min_level == old(self).config.min_level,
            !final(self).file_open,
            final(self).current_file_date@.len() == 0,
            final(self).current_file_size == 0,
            final(self).total_entries == old(self).total_entries,
            final(self).error_count == old(self).error_count,
            m@ == "Log directory changed to: "@ + new_dir@,
    {
        let mut v = chars_of("Log directory changed to: ");
        push_str(&mut v, new_dir.as_str());
        self.file_open = false;
        self.current_file_date = String::new();
        self.current_file_size = 0;
        self.config.log_dir = new_dir;
        string_from_chars(&v)
    }

    /// Where the next entry goes: a new dated file when none is open or the
    /// date changed, a new numbered file when the open one is over the size
    /// limit, the open file otherwise.
    pub fn log_file_choice(&self, today: &str) -> (c: FileChoice)
        ensures
            c == if !self.file_open || self.current_file_date@ != today@ {
                FileChoice::Dated
            } else if self.current_file_size > self.config.max_file_size {
                FileChoice::Sequenced
            } else {
                FileChoice::Current
            },
    {
        if !self.file_open || !str_eq(self.current_file_date.as_str(), today) {
            FileChoice::Dated
        } else if self.current_file_size > self.config.max_file_size {
            FileChoice::Sequenced
        } else {
            FileChoice::Current
        }
    }

    /// A new log file for `today` was opened.
    pub fn file_opened(&mut self, today: String)
        ensures
            final(self).file_open,
            final(self).current_file_date == today,
            final(self).current_file_size == 0,
            final(self).config == old(self).config,
            final(self).total_entries == old(self).total_entries,
            final(self).error_count == old(self).error_count,
    {
        self.file_open = true;
        self.current_file_date = today;
        self.current_file_size = 0;
    }

    /// An entry of `bytes` bytes at `level` was written: the counters move
    /// on, wrapping around as the atomic counters do.
    pub fn record_write(&mut self, bytes: u64, level: LogLevel)
        ensures
            write_recorded(*old(self), *final(self), bytes, level),
    {
        self.current_file_size = self.current_file_size.wrapping_add(bytes);
        self.total_entries = self.total_entries.wrapping_add(1);
        if level == LogLevel::Error {
            self.error_count = self.error_count.wrapping_add(1);
        }
    }

    /// Whether an entry at `level` is written: it is at least as severe as
    /// the configured minimum.
    pub fn should_log(&self, level: LogLevel) -> (b: bool)
        ensures
            b == (level_rank(level) >= level_rank(self.config.min_level)),
    {
        level.at_least(self.config.min_level)
    }
}

/// Whether the entry just written at `level` is flushed to disk at once:
/// warnings and errors are.
pub fn should_flush(level: LogLevel) -> (b: bool)
    ensures
        b == (level_rank(level) >= level_rank(LogLevel::Warn)),
{
    level.at_least(LogLevel::Warn)
}

/// `s` without every leading repetition of `p`, as `str::trim_start_matches`
/// gives it.
pub open spec fn strip_leading(s: Seq<char>, p: Seq<char>) -> Seq<char>
    decreases s.len(),
{
    if p.len() > 0 && seq_starts_with(s, p) {
        strip_leading(s.skip(p.len() as int), p)
    } else {
        s
    }
}

/// `s` without every trailing `c`, as `str::trim_end_matches` gives it.
pub open spec fn strip_trailing(s: Seq<char>, c: char) -> Seq<char>
    decreases s.len(),
{
    if s.len() > 0 && s.last() == c {
        strip_trailing(s.drop_last(), c)
    } else {
        s
    }
}

/// The number in the `Debug` text of a thread id (`ThreadId(N)`): the text
/// without leading `ThreadId(` and trailing `)`, read as a `u64`.
pub open spec fn thread_number(text: Seq<char>) -> Option<nat> {
    parse_unsigned(strip_trailing(strip_leading(text, "ThreadId("@), ')'), u64::MAX as nat)
}

/// The number of a thread from the `Debug` text of its id (see
/// `thread_number`).
pub fn parse_thread_id(debug_text: &str) -> (r: Option<u64>)
    ensures
        match r {
            Some(v) => thread_number(debug_text@) == Some(v as nat),
            None => thread_number(debug_text@).is_none(),
        },
{
    let s = chars_of(debug_text);
    let p = chars_of("ThreadId(");
    proof {
        reveal_strlit("ThreadId(");
    }
    let mut i: usize = 0;
    assert(s@.skip(0) =~= s@);
    while i < s.len() && matches_at(&s, &p, i)
        invariant
            i <= s@.len(),
            p@ == "ThreadId("@,
            p@.len() == 9,
            strip_leading(s@, p@) == strip_leading(s@.skip(i as int), p@),
        decreases s@.len() - i,
    {
        proof {
            assert(s@.skip(i as int).subrange(0, p@.len() as int) =~= s@.subrange(i as int, i + p@.len()));
            assert(s@.skip(i as int).skip(p@.len() as int) =~= s@.skip(i + p@.len()));
        }
        i = i + p.len();
    }
    proof {
        if seq_starts_with(s@.skip(i as int), p@) {
            assert(s@.skip(i as int).subrange(0, p@.len() as int) =~= s@.subrange(i as int, i + p@.len()));
            assert(occurs_at(s@, p@, i as int));
        }
    }
    let mut j: usize = s.len();
    assert(s@.subrange(i as int, j as int) =~= s@.skip(i as int));
    while j > i && s[j - 1] == ')'
        invariant
            i <= j <= s@.len(),
            strip_trailing(s@.skip(i as int), ')') == strip_trailing(s@.subrange(i as int, j as int), ')'),
        decreases j,
    {
        proof {
            assert(s@.subrange(i as int, j as int).drop_last() =~= s@.subrange(i as int, j - 1));
        }
        j = j - 1;
    }
    let digits = slice_chars(&s, i, j);
    crate::text::parse_u64(&digits)
}

/// Where a record of the `log` facade comes from: `file:line`, with
/// `unknown` and 0 standing for what the record does not give.
pub fn record_location(file: Option<&str>, line: Option<u32>) -> (r: String)
    ensures
        r@ == (match file {
            Some(f) => f@,
            None => "unknown"@,
        }) + seq![':'] + decimal(
            match line {
                Some(n) => n as nat,
                None => 0,
            },
        ),
{
    let mut v = match file {
        Some(f) => chars_of(f),
        None => chars_of("unknown"),
    };
    v.push(':');
    let n: u32 = match line {
        Some(n) => n,
        None => 0,
    };
    push_all(&mut v, &decimal_chars(n as u64));
    string_from_chars(&v)
}

/// Sets the least severe level that is written; returns the message that
/// records the change.
pub fn set_log_level(state: &mut LoggerState, level: LogLevel) -> (m: String)
    ensures
        final(state).config.min_level == level,
        final(state).config.log_dir == old(state).config.log_dir,
        final(state).file_open == old(state).file_open,
        final(state).current_file_size == old(state).current_file_size,
        final(state).total_entries == old(state).total_entries,
        final(state).error_count == old(state).error_count,
        m@ == "Log level changed to: "@ + level_name(level),
{
    state.config.min_level = level;
    let mut v = chars_of("Log level changed to: ");
    push_str(&mut v, level.as_str());
    string_from_chars(&v)
}

/// The least severe level that is written.
pub fn get_log_level(state: &LoggerState) -> (l: LogLevel)
    ensures
        l == state.config.min_level,
{
    state.config.min_level
}

/// The logger's counters, folder and level.
pub fn get_stats(state: &LoggerState) -> (s: LoggerStats)
    ensures
        s.total_entries == state.total_entries,
        s.error_count == state.error_count,
        s.current_file_size == state.current_file_size,
        s.log_directory@ == state.config.log_dir@,
        s.min_level == state.config.min_level,
{
    LoggerStats {
        total_entries: state.total_entries,
        error_count: state.error_count,
        current_file_size: state.current_file_size,
        log_directory: state.config.log_dir.clone(),
        min_level: state.config.min_level,
    }
}

/// Whether buffered entries have a file to be flushed to: exactly when a log
/// file is open. The flush itself is the caller's I/O.
pub fn flush(state: &LoggerState) -> (b: bool)
    ensures
        b == state.file_open,
{
    state.file_open
}


// ---------------------------------------------------------------------------
// Masking user folders
// ---------------------------------------------------------------------------

/// A path separator, `/` or `\`.
pub open spec fn is_separator(c: char) -> bool {
    c == '/' || c == '\\'
}

/// The position of the last separator in `s`.
pub open spec fn last_separator(s: Seq<char>) -> Option<int>
    decreases s.len(),
{
    if s.len() == 0 {
        None
    } else if is_separator(s.last()) {
        Some(s.len() - 1)
    } else {
        last_separator(s.drop_last())
    }
}

proof fn lemma_last_separator(s: Seq<char>)
    ensures
        match last_separator(s) {
            Some(k) => 0 <= k < s.len(),
            None => true,
        },
    decreases s.len(),
{
    if s.len() > 0 && !is_separator(s.last()) {
        lemma_last_separator(s.drop_last());
    }
}

/// The three stars that stand for a user's folder name.
pub open spec fn stars() -> Seq<char> {
    seq!['*', '*', '*']
}

/// `path` with the name of the user's home folder replaced by `***`, when
/// `path` lies inside `home` (a separator follows `home` in it): for
/// `C:\Users\name` that gives `C:\Users\***\Documents\...`.
pub open spec fn mask_home(path: Seq<char>, home: Seq<char>) -> Option<Seq<char>> {
    if seq_starts_with(path, home) && path.len() > home.len() && is_separator(path[home.len() as int]) {
        let keep = match last_separator(home) {
            Some(k) => home.take(k + 1),
            None => Seq::empty(),
        };
        Some(keep + stars() + path.skip(home.len() as int))
    } else {
        None
    }
}

/// `s` with its leading `pattern` replaced by `replacement`, unless `s` is
/// already masked.
pub open spec fn mask_pattern(s: Seq<char>, pattern: Seq<char>, replacement: Seq<char>) -> Seq<
    char,
> {
    if seq_starts_with(s, pattern) && !seq_contains(s, stars()) {
        replacement + s.skip(pattern.len() as int)
    } else {
        s
    }
}

/// A message with the user's folder masked: below the home folder when the
/// path lies there, else below `C:\Users\`, `/home/` or `/Users/`.
pub open spec fn masked_path(path: Seq<char>, home: Option<Seq<char>>) -> Seq<char> {
    let by_home = match home {
        Some(h) => mask_home(path, h),
        None => None,
    };
    match by_home {
        Some(r) => r,
        None => mask_pattern(
            mask_pattern(
                mask_pattern(path, "C:\\Users\\"@, "C:\\Users\\***\\"@),
                "/home/"@,
                "/home/***/"@,
            ),
            "/Users/"@,
            "/Users/***/"@,
        ),
    }
}

fn push_stars(v: &mut Vec<char>)
    ensures
        final(v)@ == old(v)@ + stars(),
{
    v.push('*');
    v.push('*');
    v.push('*');
    assert(final(v)@ =~= old(v)@ + stars());
}

fn apply_mask_pattern(s: Vec<char>, pattern: &str, replacement: &str) -> (r: Vec<char>)
    ensures
        r@ == mask_pattern(s@, pattern@, replacement@),
{
    let p = chars_of(pattern);
    let mut st: Vec<char> = Vec::new();
    push_stars(&mut st);
    assert(st@ =~= stars());
    if starts_with(&s, &p) && !contains(&s, &st) {
        let mut r = chars_of(replacement);
        let rest = slice_chars(&s, p.len(), s.len());
        push_all(&mut r, &rest);
        assert(rest@ =~= s@.skip(pattern@.len() as int));
        r
    } else {
        s
    }
}

fn last_separator_index(s: &[char]) -> (r: Option<usize>)
    ensures
        match last_separator(s@) {
            Some(k) => r == Some(k as usize),
            None => r.is_none(),
        },
{
    let mut i: usize = s.len();
    assert(s@.take(i as int) =~= s@);
    while i > 0
        invariant
            i <= s@.len(),
            last_separator(s@) == last_separator(s@.take(i as int)),
        decreases i,
    {
        assert(s@.take(i as int).last() == s@[i - 1]);
        if s[i - 1] == '/' || s[i - 1] == '\\' {
            return Some(i - 1);
        }
        assert(s@.take(i as int).drop_last() =~= s@.take(i - 1));
        i = i - 1;
    }
    None
}

/// Masks the user's folder in a path or message (see `masked_path`).
pub fn sanitize_path(path: &str, user_home: Option<&str>) -> (r: String)
    ensures
        r@ == masked_path(
            path@,
            match user_home {
                Some(h) => Some(h@),
                None => None,
            },
        ),
{
    let s = chars_of(path);
    if let Some(home) = user_home {
        let h = chars_of(home);
        if starts_with(&s, &h) && s.len() > h.len() && (s[h.len()] == '/' || s[h.len()] == '\\') {
            proof {
                lemma_last_separator(h@);
            }
            let mut out: Vec<char> = match last_separator_index(&h) {
                Some(k) => slice_chars(&h, 0, k + 1),
                None => Vec::new(),
            };
            push_stars(&mut out);
            let rest = slice_chars(&s, h.len(), s.len());
            push_all(&mut out, &rest);
            proof {
                assert(h@ == home@ && s@ == path@);
                let keep = match last_separator(home@) {
                    Some(k) => home@.take(k + 1),
                    None => Seq::<char>::empty(),
                };
                assert(out@ =~= keep + stars() + path@.skip(home@.len() as int));
            }
            return string_from_chars(&out);
        }
    }
    let a = apply_mask_pattern(s, "C:\\Users\\", "C:\\Users\\***\\");
    let b = apply_mask_pattern(a, "/home/", "/home/***/");
    let c = apply_mask_pattern(b, "/Users/", "/Users/***/");
    string_from_chars(&c)
}

// ---------------------------------------------------------------------------
// The text of an entry
// ---------------------------------------------------------------------------

/// A level's name padded to five characters, as `{:5}` writes it.
pub open spec fn padded_level(l: LogLevel) -> Seq<char> {
    match l {
        LogLevel::Info => "INFO"@ + seq![' '],
        LogLevel::Warn => "WARN"@ + seq![' '],
        _ => level_name(l),
    }
}

/// `[timestamp] [LEVEL] [target]`.
pub open spec fn entry_head(ts: Seq<char>, l: LogLevel, target: Seq<char>) -> Seq<char> {
    "["@ + ts + "] ["@ + padded_level(l) + "] ["@ + target + "]"@
}

/// A plain entry: the head, ` [T{thread}]` and ` [{location}]` when given,
/// and the message after a space.
pub open spec fn plain_entry(
    ts: Seq<char>,
    l: LogLevel,
    target: Seq<char>,
    message: Seq<char>,
    location: Option<Seq<char>>,
    thread_id: Option<u64>,
) -> Seq<char> {
    entry_head(ts, l, target) + match thread_id {
        Some(t) => " [T"@ + decimal(t as nat) + "]"@,
        None => Seq::empty(),
    } + match location {
        Some(loc) => " ["@ + loc + "]"@,
        None => Seq::empty(),
    } + " "@ + message
}

/// The hexadecimal digit of `d` (0 to 15), in lower case.
pub open spec fn hex_digit(d: int) -> char {
    if d < 10 {
        (('0' as int) + d) as char
    } else {
        (('a' as int) + d - 10) as char
    }
}

/// How serde_json writes one character inside a JSON string: `"` and `\`
/// and the control characters escaped (`\b`, `\t`, `\n`, `\f`, `\r`, else
/// `\u00XX`), every other character as it is.
pub open spec fn json_char(c: char) -> Seq<char> {
    let u = c as u32;
    if c == '"' {
        seq!['\\', '"']
    } else if c == '\\' {
        seq!['\\', '\\']
    } else if u == 0x08 {
        seq!['\\', 'b']
    } else if u == 0x09 {
        seq!['\\', 't']
    } else if u == 0x0a {
        seq!['\\', 'n']
    } else if u == 0x0c {
        seq!['\\', 'f']
    } else if u == 0x0d {
        seq!['\\', 'r']
    } else if u < 0x20 {
        seq!['\\', 'u', '0', '0', hex_digit((u / 16) as int), hex_digit((u % 16) as int)]
    } else {
        seq![c]
    }
}

/// The characters of `s` as serde_json writes them inside a JSON string.
pub open spec fn json_escaped(s: Seq<char>) -> Seq<char>
    decreases s.len(),
{
    if s.len() == 0 {
        Seq::empty()
    } else {
        json_escaped(s.drop_last()) + json_char(s.last())
    }
}

/// The JSON string literal of `s`, as `serde_json::to_string` writes it.
pub open spec fn json_text(s: Seq<char>) -> Seq<char> {
    seq!['"'] + json_escaped(s) + seq!['"']
}

/// `serde_json::to_string` on a string slice: the quoted and escaped text
/// (serialising a `str` into memory cannot fail; an error would give the
/// empty text).
#[verifier::external_body]
fn json_string(s: &str) -> (r: String)
    ensures
        r@ == json_text(s@),
{
    match serde_json::to_string(s) {
        Ok(q) => q,
        Err(_) => String::new(),
    }
}

/// A JSON entry: an object with `timestamp`, `level`, `target` and
/// `message`, then `thread_id` and `location` when given; the plain head and
/// message when a string cannot be written as JSON.
pub open spec fn json_entry(
    ts: Seq<char>,
    l: LogLevel,
    target: Seq<char>,
    message: Seq<char>,
    location: Option<Seq<char>>,
    thread_id: Option<u64>,
) -> Seq<char> {
    let all_written = json_text(ts).len() > 0 && json_text(level_name(l)).len() > 0 && json_text(
        target,
    ).len() > 0 && json_text(message).len() > 0 && match location {
        Some(loc) => json_text(loc).len() > 0,
        None => true,
    };
    if all_written {
        "{\"timestamp\":"@ + json_text(ts) + ",\"level\":"@ + json_text(level_name(l))
            + ",\"target\":"@ + json_text(target) + ",\"message\":"@ + json_text(message) + match thread_id {
            Some(t) => ",\"thread_id\":"@ + decimal(t as nat),
            None => Seq::empty(),
        } + match location {
            Some(loc) => ",\"location\":"@ + json_text(loc),
            None => Seq::empty(),
        } + "}"@
    } else {
        entry_head(ts, l, target) + " "@ + message
    }
}

/// The text of an entry as the configuration asks: JSON or plain, with the
/// message masked when masking is on (using the home folder in `state`), and
/// the thread id and the location only when the configuration includes them.
pub open spec fn entry_text(
    state: LoggerState,
    ts: Seq<char>,
    l: LogLevel,
    target: Seq<char>,
    message: Seq<char>,
    location: Option<Seq<char>>,
    thread_id: Option<u64>,
) -> Seq<char> {
    let home = match state.user_home_dir {
        Some(h) => Some(h@),
        None => None,
    };
    let m = if state.config.sanitize_paths {
        masked_path(message, home)
    } else {
        message
    };
    let loc = if state.config.include_location {
        location
    } else {
        None
    };
    let tid = if state.config.include_thread_id {
        thread_id
    } else {
        None
    };
    match state.config.log_format {
        LogFormat::Json => json_entry(ts, l, target, m, loc, tid),
        LogFormat::Plain => plain_entry(ts, l, target, m, loc, tid),
    }
}

fn push_head(v: &mut Vec<char>, ts: &str, level: LogLevel, target: &str)
    ensures
        final(v)@ == old(v)@ + entry_head(ts@, level, target@),
{
    push_str(v, "[");
    push_str(v, ts);
    push_str(v, "] [");
    push_str(v, level.as_str());
    match level {
        LogLevel::Info | LogLevel::Warn => {
            v.push(' ');
        },
        _ => {},
    }
    push_str(v, "] [");
    push_str(v, target);
    push_str(v, "]");
    assert(final(v)@ =~= old(v)@ + entry_head(ts@, level, target@));
}

fn json_entry_chars(
    timestamp: &str,
    level: LogLevel,
    target: &str,
    m: &str,
    location: Option<&str>,
    thread_id: Option<u64>,
) -> (v: Vec<char>)
    ensures
        v@ == json_entry(
            timestamp@,
            level,
            target@,
            m@,
            match location {
                Some(l) => Some(l@),
                None => None,
            },
            thread_id,
        ),
{
    let mut v: Vec<char> = Vec::new();
    let qt = json_string(timestamp);
    let ql = json_string(level.as_str());
    let qg = json_string(target);
    let qm = json_string(m);
    let qloc: Option<String> = match location {
        Some(l) => Some(json_string(l)),
        None => None,
    };
    let loc_ok = match &qloc {
        Some(q) => !q.as_str().is_empty(),
        None => true,
    };
    if !qt.as_str().is_empty() && !ql.as_str().is_empty() && !qg.as_str().is_empty()
        && !qm.as_str().is_empty() && loc_ok {
        push_str(&mut v, "{\"timestamp\":");
        push_str(&mut v, qt.as_str());
        push_str(&mut v, ",\"level\":");
        push_str(&mut v, ql.as_str());
        push_str(&mut v, ",\"target\":");
        push_str(&mut v, qg.as_str());
        push_str(&mut v, ",\"message\":");
        push_str(&mut v, qm.as_str());
        if let Some(t) = thread_id {
            push_str(&mut v, ",\"thread_id\":");
            push_all(&mut v, &decimal_chars(t));
        }
        if let Some(q) = &qloc {
            push_str(&mut v, ",\"location\":");
            push_str(&mut v, q.as_str());
        }
        push_str(&mut v, "}");
    } else {
        push_head(&mut v, timestamp, level, target);
        push_str(&mut v, " ");
        push_str(&mut v, m);
    }
    assert(v@ =~= json_entry(
        timestamp@,
        level,
        target@,
        m@,
        match location {
            Some(l) => Some(l@),
            None => None,
        },
        thread_id,
    ));
    v
}

fn plain_entry_chars(
    timestamp: &str,
    level: LogLevel,
    target: &str,
    m: &str,
    location: Option<&str>,
    thread_id: Option<u64>,
) -> (v: Vec<char>)
    ensures
        v@ == plain_entry(
            timestamp@,
            level,
            target@,
            m@,
            match location {
                Some(l) => Some(l@),
                None => None,
            },
            thread_id,
        ),
{
    let mut v: Vec<char> = Vec::new();
    push_head(&mut v, timestamp, level, target);
    if let Some(t) = thread_id {
        push_str(&mut v, " [T");
        push_all(&mut v, &decimal_chars(t));
        push_str(&mut v, "]");
    }
    if let Some(l) = location {
        push_str(&mut v, " [");
        push_str(&mut v, l);
        push_str(&mut v, "]");
    }
    push_str(&mut v, " ");
    push_str(&mut v, m);
    assert(v@ =~= plain_entry(
        timestamp@,
        level,
        target@,
        m@,
        match location {
            Some(l) => Some(l@),
            None => None,
        },
        thread_id,
    ));
    v
}

/// The text of a log entry (see `entry_text`).
pub fn format_log_entry(
    state: &LoggerState,
    timestamp: &str,
    level: LogLevel,
    target: &str,
    message: &str,
    location: Option<&str>,
    thread_id: Option<u64>,
) -> (r: String)
    ensures
        r@ == entry_text(
            *state,
            timestamp@,
            level,
            target@,
            message@,
            match location {
                Some(l) => Some(l@),
                None => None,
            },
            thread_id,
        ),
{
    let home: Option<&str> = match &state.user_home_dir {
        Some(h) => Some(h.as_str()),
        None => None,
    };
    let m: String = if state.config.sanitize_paths {
        sanitize_path(message, home)
    } else {
        message.to_owned()
    };
    let loc: Option<&str> = if state.config.include_location {
        location
    } else {
        None
    };
    let tid: Option<u64> = if state.config.include_thread_id {
        thread_id
    } else {
        None
    };
    let v = match state.config.log_format {
        LogFormat::Json => json_entry_chars(timestamp, level, target, m.as_str(), loc, tid),
        LogFormat::Plain => plain_entry_chars(timestamp, level, target, m.as_str(), loc, tid),
    };
    string_from_chars(&v)
}


// ---------------------------------------------------------------------------
// Log files
// ---------------------------------------------------------------------------

/// The start of every log file name.
pub open spec fn log_name_prefix() -> Seq<char> {
    "bilibili-converter-"@
}

/// The log file of a day: `bilibili-converter-{date}.log`.
pub open spec fn dated_log_name(date: Seq<char>) -> Seq<char> {
    log_name_prefix() + date + ".log"@
}

/// A further log file of a day: `bilibili-converter-{date}-{n}.log`.
pub open spec fn sequenced_log_name(date: Seq<char>, n: nat) -> Seq<char> {
    log_name_prefix() + date + "-"@ + decimal(n) + ".log"@
}

/// The name of the log file of a day.
pub fn dated_log_file_name(date: &str) -> (r: String)
    ensures
        r@ == dated_log_name(date@),
{
    let mut v = chars_of("bilibili-converter-");
    push_str(&mut v, date);
    push_str(&mut v, ".log");
    string_from_chars(&v)
}

/// The name of a further log file of a day.
pub fn sequenced_log_file_name(date: &str, n: usize) -> (r: String)
    ensures
        r@ == sequenced_log_name(date@, n as nat),
{
    let mut v = chars_of("bilibili-converter-");
    push_str(&mut v, date);
    push_str(&mut v, "-");
    push_all(&mut v, &decimal_chars(n as u64));
    push_str(&mut v, ".log");
    string_from_chars(&v)
}

/// The number of digits at the start of `s`.
pub open spec fn digit_run(s: Seq<char>) -> nat
    decreases s.len(),
{
    if s.len() > 0 && crate::text::is_digit(s[0]) {
        1 + digit_run(s.drop_first())
    } else {
        0
    }
}

/// The start of the name of a further log file of `date`:
/// `bilibili-converter-{date}-`.
pub open spec fn sequenced_head(date: Seq<char>) -> Seq<char> {
    log_name_prefix() + date + "-"@
}

/// The sequence number of a log file name of `date`: the digits right after
/// `bilibili-converter-{date}-`, when `.log` follows them, read as a
/// `usize`; `None` for any other name (the day's own file among them).
pub open spec fn sequence_of(name: Seq<char>, date: Seq<char>) -> Option<nat> {
    let head = sequenced_head(date);
    if seq_starts_with(name, head) {
        let rest = name.skip(head.len() as int);
        let k = digit_run(rest);
        if k > 0 && seq_starts_with(rest.skip(k as int), ".log"@) {
            parse_unsigned(rest.take(k as int), usize::MAX as nat)
        } else {
            None
        }
    } else {
        None
    }
}

/// The sequence number for a further log file of `date`: one more than the
/// largest found among the file names, and at least 1.
pub open spec fn next_sequence(names: Seq<Seq<char>>, date: Seq<char>) -> nat
    decreases names.len(),
{
    if names.len() == 0 {
        1
    } else {
        let m = next_sequence(names.drop_last(), date);
        match sequence_of(names.last(), date) {
            Some(n) => if n + 1 > m {
                n + 1
            } else {
                m
            },
            None => m,
        }
    }
}

/// The views of a list of strings.
pub open spec fn name_views(v: Seq<String>) -> Seq<Seq<char>> {
    v.map_values(|s: String| s@)
}

proof fn lemma_digit_run_skip(s: Seq<char>, i: int)
    requires
        0 <= i <= s.len(),
        forall|j: int| 0 <= j < i ==> crate::text::is_digit(#[trigger] s[j]),
    ensures
        digit_run(s) == i + digit_run(s.skip(i)),
    decreases i,
{
    if i > 0 {
        let t = s.drop_first();
        assert forall|j: int| 0 <= j < i - 1 implies crate::text::is_digit(#[trigger] t[j]) by {
            assert(t[j] == s[j + 1]);
        }
        lemma_digit_run_skip(t, i - 1);
        assert(t.skip(i - 1) =~= s.skip(i));
        assert(crate::text::is_digit(s[0]));
    } else {
        assert(s.skip(0) =~= s);
    }
}

fn sequence_in(name: &str, date: &str) -> (r: Option<usize>)
    ensures
        match sequence_of(name@, date@) {
            Some(n) => r matches Some(k) && k == n,
            None => r.is_none(),
        },
{
    let s = chars_of(name);
    let mut head = chars_of("bilibili-converter-");
    push_str(&mut head, date);
    push_str(&mut head, "-");
    proof {
        reveal_strlit("bilibili-converter-");
        reveal_strlit("-");
        assert(head@ =~= sequenced_head(date@));
    }
    if !starts_with(&s, &head) {
        return None;
    }
    let start = head.len();
    let ghost rest = s@.skip(start as int);
    let mut i: usize = start;
    while i < s.len() && '0' <= s[i] && s[i] <= '9'
        invariant
            start <= i <= s@.len(),
            rest == s@.skip(start as int),
            forall|j: int| 0 <= j < i - start ==> crate::text::is_digit(#[trigger] rest[j]),
        decreases s@.len() - i,
    {
        assert(rest[i - start] == s@[i as int]);
        i = i + 1;
    }
    proof {
        lemma_digit_run_skip(rest, i - start);
        assert(rest.skip(i - start) =~= s@.skip(i as int));
        if i < s.len() {
            assert(s@.skip(i as int)[0] == s@[i as int]);
        }
        assert(digit_run(s@.skip(i as int)) == 0);
    }
    let k = i - start;
    if k == 0 {
        return None;
    }
    let dot_log = chars_of(".log");
    if !matches_at(&s, &dot_log, i) {
        proof {
            if seq_starts_with(rest.skip(k as int), dot_log@) {
                assert(s@.subrange(i as int, i + dot_log@.len()) =~= rest.skip(k as int).subrange(0, dot_log@.len() as int));
            }
        }
        return None;
    }
    proof {
        assert(rest.skip(k as int).subrange(0, dot_log@.len() as int) =~= s@.subrange(i as int, i + dot_log@.len()));
    }
    let digits = slice_chars(&s, start, i);
    assert(digits@ =~= rest.take(k as int));
    parse_usize(&digits)
}

/// Whether the sequence number of a file name can be counted on: it is not
/// `usize::MAX` (one more would not fit).
pub fn sequence_name_usable(name: &str, date: &str) -> (b: bool)
    ensures
        b == (sequence_of(name@, date@) != Some(usize::MAX as nat)),
{
    match sequence_in(name, date) {
        Some(n) => n != usize::MAX,
        None => true,
    }
}

/// The sequence number for a further log file of `date`, from the names of
/// the files in the log folder (see `next_sequence`).
pub fn find_next_sequence(names: &Vec<String>, date: &str) -> (r: usize)
    requires
        forall|i: int|
            0 <= i < names@.len() ==> sequence_of(#[trigger] names@[i]@, date@) != Some(
                usize::MAX as nat,
            ),
    ensures
        r == next_sequence(name_views(names@), date@),
{
    let mut max_seq: usize = 1;
    let mut i: usize = 0;
    while i < names.len()
        invariant
            i <= names@.len(),
            max_seq == next_sequence(name_views(names@.take(i as int)), date@),
            forall|k: int|
                0 <= k < names@.len() ==> sequence_of(#[trigger] names@[k]@, date@) != Some(
                    usize::MAX as nat,
                ),
        decreases names@.len() - i,
    {
        proof {
            assert(name_views(names@.take(i + 1)).drop_last() =~= name_views(
                names@.take(i as int),
            ));
            assert(name_views(names@.take(i + 1)).last() == names@[i as int]@);
        }
        let ghost before = max_seq;
        if let Some(n) = sequence_in(names[i].as_str(), date) {
            let next = n + 1;
            if next > max_seq {
                max_seq = next;
            }
        }
        i = i + 1;
    }
    proof {
        assert(names@.take(names@.len() as int) =~= names@);
    }
    max_seq
}

/// The sequence number read back from the name of the `n`-th further log
/// file of `date` is `n`.
pub proof fn lemma_sequence_of_sequenced_name(date: Seq<char>, n: nat)
    requires
        n <= usize::MAX,
    ensures
        sequence_of(sequenced_log_name(date, n), date) == Some(n),
{
    let head = sequenced_head(date);
    let d = decimal(n);
    let t = ".log"@;
    let name = sequenced_log_name(date, n);
    assert(name == head + d + t) by {
        assert(log_name_prefix() + date + "-"@ + d + t =~= (log_name_prefix() + date + "-"@) + d + t);
    }
    assert(seq_starts_with(name, head)) by {
        assert(name.subrange(0, head.len() as int) =~= head);
    }
    let rest = name.skip(head.len() as int);
    assert(rest =~= d + t);
    lemma_sequence_rest(d, t, n);
}

proof fn lemma_sequence_rest(d: Seq<char>, t: Seq<char>, n: nat)
    requires
        d == decimal(n),
        t == ".log"@,
        n <= usize::MAX,
    ensures
        ({
            let rest = d + t;
            let k = digit_run(rest);
            &&& k == d.len()
            &&& k > 0
            &&& seq_starts_with(rest.skip(k as int), ".log"@)
            &&& parse_unsigned(rest.take(k as int), usize::MAX as nat) == Some(n)
        }),
{
    reveal_strlit(".log");
    crate::text::lemma_decimal_digits(n);
    let rest = d + t;
    assert forall|j: int| 0 <= j < d.len() implies crate::text::is_digit(#[trigger] rest[j]) by {
        assert(rest[j] == d[j]);
    }
    lemma_digit_run_skip(rest, d.len() as int);
    assert(rest.skip(d.len() as int) =~= t);
    assert(t[0] == '.');
    assert(digit_run(t) == 0);
    assert(t.subrange(0, 4) =~= t);
    assert(rest.take(d.len() as int) =~= d);
    assert(crate::text::is_digit(d[0]));
}

/// The next sequence number is at least 1 and above the number of every
/// log file of the day found.
pub proof fn lemma_next_sequence_above(names: Seq<Seq<char>>, date: Seq<char>)
    ensures
        next_sequence(names, date) >= 1,
        forall|i: int|
            0 <= i < names.len() ==> (sequence_of(#[trigger] names[i], date) matches Some(k) ==> k
                < next_sequence(names, date)),
    decreases names.len(),
{
    if names.len() > 0 {
        let prev = names.drop_last();
        lemma_next_sequence_above(prev, date);
        assert forall|i: int| 0 <= i < names.len() implies (sequence_of(#[trigger] names[i], date) matches Some(k) ==> k
            < next_sequence(names, date)) by {
            if i < names.len() - 1 {
                assert(names[i] == prev[i]);
            }
        }
    }
}

/// A new numbered log file never takes the name of a file already in the
/// log folder: the number chosen is above every number found (for a number
/// that fits in `usize`).
pub proof fn lemma_next_log_name_is_new(names: Seq<Seq<char>>, date: Seq<char>)
    requires
        next_sequence(names, date) <= usize::MAX,
    ensures
        forall|i: int|
            0 <= i < names.len() ==> #[trigger] names[i] != sequenced_log_name(
                date,
                next_sequence(names, date),
            ),
{
    let k = next_sequence(names, date);
    lemma_next_sequence_above(names, date);
    lemma_sequence_of_sequenced_name(date, k);
    assert forall|i: int| 0 <= i < names.len() implies #[trigger] names[i] != sequenced_log_name(
        date,
        k,
    ) by {
        if names[i] == sequenced_log_name(date, k) {
            assert(sequence_of(names[i], date) == Some(k));
        }
    }
}

/// Whether a file of the log folder is one of the logger's: a compressed log
/// (`.log.gz`, then `Some(true)`) or a log of this program
/// (`bilibili-converter-*.log`, then `Some(false)`).
pub open spec fn log_file_kind(name: Seq<char>) -> Option<bool> {
    if seq_ends_with(name, ".log.gz"@) {
        Some(true)
    } else if seq_starts_with(name, log_name_prefix()) && seq_ends_with(name, ".log"@) {
        Some(false)
    } else {
        None
    }
}

/// Whether a file of the log folder is one of the logger's (see
/// `log_file_kind`).
pub fn classify_log_file(name: &str) -> (r: Option<bool>)
    ensures
        r == log_file_kind(name@),
{
    let s = chars_of(name);
    if ends_with(&s, &chars_of(".log.gz")) {
        Some(true)
    } else if starts_with(&s, &chars_of("bilibili-converter-")) && ends_with(&s, &chars_of(".log")) {
        Some(false)
    } else {
        None
    }
}

/// A log file found in the log folder: its name, when it was last changed
/// (nanoseconds since the epoch) and whether it is compressed.
#[derive(Debug, Clone)]
pub struct LogFileInfo {
    pub name: String,
    pub modified_nanos: u128,
    pub is_gz: bool,
}

/// What a clean-up does: the logs to compress, and the files to delete.
#[derive(Debug, Clone)]
pub struct CleanupPlan {
    pub compress: Vec<String>,
    pub delete: Vec<String>,
}

/// `order` lists the positions of `files` from the newest to the oldest,
/// files changed at the same time in the order found.
pub open spec fn newest_first(files: Seq<LogFileInfo>, order: Seq<usize>) -> bool {
    &&& order.len() == files.len()
    &&& forall|i: int| 0 <= i < order.len() ==> #[trigger] order[i] < files.len()
    &&& forall|i: int, j: int| 0 <= i < j < order.len() ==> #[trigger] order[i] != #[trigger] order[j]
    &&& forall|i: int, j: int|
        0 <= i < j < order.len() ==> files[#[trigger] order[i] as int].modified_nanos
            > files[#[trigger] order[j] as int].modified_nanos || (files[order[i] as int].modified_nanos
            == files[order[j] as int].modified_nanos && order[i] < order[j])
}

/// The nanoseconds of a day.
pub open spec fn day_nanos() -> int {
    86_400_000_000_000
}

/// A plain log file that is at least a day old at `now`.
pub open spec fn due_for_compression(f: LogFileInfo, now: u128) -> bool {
    !f.is_gz && now >= f.modified_nanos && now - f.modified_nanos >= day_nanos()
}

/// The names of the files that are due for compression, in order.
pub open spec fn compress_names(sorted: Seq<LogFileInfo>, now: u128) -> Seq<Seq<char>>
    decreases sorted.len(),
{
    if sorted.len() == 0 {
        Seq::empty()
    } else {
        let prev = compress_names(sorted.drop_last(), now);
        if due_for_compression(sorted.last(), now) {
            prev.push(sorted.last().name@)
        } else {
            prev
        }
    }
}

/// The names of a list of log files.
pub open spec fn names_of(s: Seq<LogFileInfo>) -> Seq<Seq<char>> {
    s.map_values(|f: LogFileInfo| f.name@)
}

/// The files in the order given by `order`.
pub open spec fn in_order(files: Seq<LogFileInfo>, order: Seq<usize>) -> Seq<LogFileInfo> {
    order.map_values(|i: usize| files[i as int])
}

/// The clean-up of the log folder: with compression on, every plain log at
/// least a day old is compressed (newest first); when more than `max_files`
/// (not 0) files are found, all but the newest `max_files` are deleted.
pub open spec fn cleanup_plan(
    files: Seq<LogFileInfo>,
    order: Seq<usize>,
    max_files: usize,
    compress_old: bool,
    now: u128,
) -> (Seq<Seq<char>>, Seq<Seq<char>>) {
    let sorted = in_order(files, order);
    let compress = if compress_old {
        compress_names(sorted, now)
    } else {
        Seq::empty()
    };
    let delete = if files.len() > max_files && max_files > 0 {
        names_of(sorted.skip(max_files as int))
    } else {
        Seq::empty()
    };
    (compress, delete)
}

/// A log that is not compressed and was last changed at least a day before
/// `now`.
pub open spec fn old_plain_log(f: LogFileInfo, now: u128) -> bool {
    !f.is_gz && now >= f.modified_nanos && now - f.modified_nanos >= 86_400_000_000_000
}

proof fn lemma_compress_names_sound(sorted: Seq<LogFileInfo>, now: u128)
    ensures
        forall|i: int|
            0 <= i < compress_names(sorted, now).len() ==> exists|j: int|
                #![trigger sorted[j]]
                0 <= j < sorted.len() && sorted[j].name@ == #[trigger] compress_names(sorted, now)[i]
                    && old_plain_log(sorted[j], now),
    decreases sorted.len(),
{
    if sorted.len() > 0 {
        let d = sorted.drop_last();
        lemma_compress_names_sound(d, now);
        let prev = compress_names(d, now);
        let c = compress_names(sorted, now);
        assert forall|i: int| 0 <= i < c.len() implies exists|j: int|
            #![trigger sorted[j]]
            0 <= j < sorted.len() && sorted[j].name@ == #[trigger] c[i] && old_plain_log(sorted[j], now) by {
            if i < prev.len() {
                assert(c[i] == prev[i]);
                let j = choose|j: int|
                    #![trigger d[j]]
                    0 <= j < d.len() && d[j].name@ == prev[i] && old_plain_log(d[j], now);
                assert(sorted[j] == d[j]);
            } else {
                assert(c[i] == sorted.last().name@);
                assert(sorted[sorted.len() - 1] == sorted.last());
            }
        }
    }
}

/// A clean-up compresses only plain logs (never a file that is already
/// compressed) that are at least a day old, and only when compression is on;
/// when more than `max_files` (not 0) files are found it deletes exactly the
/// files beyond the newest `max_files`, each no newer than every file kept.
pub proof fn lemma_cleanup_plan_laws(
    files: Seq<LogFileInfo>,
    order: Seq<usize>,
    max_files: usize,
    compress_old: bool,
    now: u128,
)
    requires
        newest_first(files, order),
    ensures
        ({
            let (compress, delete) = cleanup_plan(files, order, max_files, compress_old, now);
            &&& !compress_old ==> compress.len() == 0
            &&& forall|i: int|
                0 <= i < compress.len() ==> exists|k: int|
                    #![trigger files[k]]
                    0 <= k < files.len() && files[k].name@ == #[trigger] compress[i] && old_plain_log(files[k], now)
            &&& delete.len() == if files.len() > max_files && max_files > 0 {
                files.len() - max_files
            } else {
                0
            }
            &&& forall|i: int, p: int|
                0 <= i < delete.len() && 0 <= p < max_files ==> #[trigger] delete[i]
                    == files[order[max_files + i] as int].name@ && files[order[max_files + i] as int].modified_nanos
                    <= files[#[trigger] order[p] as int].modified_nanos
        }),
{
    let sorted = in_order(files, order);
    lemma_compress_names_sound(sorted, now);
    let (compress, delete) = cleanup_plan(files, order, max_files, compress_old, now);
    if compress_old {
        assert forall|i: int| 0 <= i < compress.len() implies exists|k: int|
            #![trigger files[k]]
            0 <= k < files.len() && files[k].name@ == #[trigger] compress[i] && old_plain_log(files[k], now) by {
            let j = choose|j: int|
                #![trigger sorted[j]]
                0 <= j < sorted.len() && sorted[j].name@ == compress_names(sorted, now)[i]
                    && old_plain_log(sorted[j], now);
            assert(sorted[j] == files[order[j] as int]);
            assert(0 <= order[j] < files.len());
        }
    }
    if files.len() > max_files && max_files > 0 {
        assert forall|i: int, p: int|
            0 <= i < delete.len() && 0 <= p < max_files implies #[trigger] delete[i]
                == files[order[max_files + i] as int].name@ && files[order[max_files + i] as int].modified_nanos
                <= files[#[trigger] order[p] as int].modified_nanos by {
            assert(sorted.skip(max_files as int)[i] == sorted[max_files + i]);
            assert(sorted[max_files + i] == files[order[max_files + i] as int]);
        }
    }
}

proof fn lemma_newest_first_insert(
    files: Seq<LogFileInfo>,
    order: Seq<usize>,
    i: usize,
    p: int,
)
    requires
        order.len() == i,
        i < files.len(),
        forall|k: int| 0 <= k < order.len() ==> #[trigger] order[k] < i,
        forall|a: int, b: int| 0 <= a < b < order.len() ==> #[trigger] order[a] != #[trigger] order[b],
        forall|a: int, b: int|
            0 <= a < b < order.len() ==> files[#[trigger] order[a] as int].modified_nanos
                > files[#[trigger] order[b] as int].modified_nanos || (files[order[a] as int].modified_nanos
                == files[order[b] as int].modified_nanos && order[a] < order[b]),
        0 <= p <= order.len(),
        forall|k: int| 0 <= k < p ==> files[#[trigger] order[k] as int].modified_nanos >= files[i as int].modified_nanos,
        p < order.len() ==> files[order[p] as int].modified_nanos < files[i as int].modified_nanos,
    ensures
        ({
            let o = order.insert(p, i);
            &&& forall|k: int| 0 <= k < o.len() ==> #[trigger] o[k] < i + 1
            &&& forall|a: int, b: int| 0 <= a < b < o.len() ==> #[trigger] o[a] != #[trigger] o[b]
            &&& forall|a: int, b: int|
                0 <= a < b < o.len() ==> files[#[trigger] o[a] as int].modified_nanos
                    > files[#[trigger] o[b] as int].modified_nanos || (files[o[a] as int].modified_nanos
                    == files[o[b] as int].modified_nanos && o[a] < o[b])
        }),
{
    let o = order.insert(p, i);
    assert forall|a: int, b: int| 0 <= a < b < o.len() implies files[#[trigger] o[a] as int].modified_nanos
        > files[#[trigger] o[b] as int].modified_nanos || (files[o[a] as int].modified_nanos
        == files[o[b] as int].modified_nanos && o[a] < o[b]) by {
        if b < p {
            assert(o[a] == order[a] && o[b] == order[b]);
        } else if b == p {
            assert(o[a] == order[a]);
        } else if a < p {
            assert(o[a] == order[a] && o[b] == order[b - 1]);
            if p < order.len() {
                assert(files[order[p] as int].modified_nanos >= files[order[b - 1] as int].modified_nanos) by {
                    if p < b - 1 {
                        assert(files[order[p] as int].modified_nanos > files[order[b - 1] as int].modified_nanos
                            || files[order[p] as int].modified_nanos == files[order[b - 1] as int].modified_nanos);
                    }
                }
            }
        } else if a == p {
            assert(o[b] == order[b - 1]);
            if p < b - 1 {
                assert(files[order[p] as int].modified_nanos >= files[order[b - 1] as int].modified_nanos);
            }
        } else {
            assert(o[a] == order[a - 1] && o[b] == order[b - 1]);
        }
    }
    assert forall|a: int, b: int| 0 <= a < b < o.len() implies #[trigger] o[a] != #[trigger] o[b] by {
        if b < p {
            assert(o[a] == order[a] && o[b] == order[b]);
        } else if b == p {
            assert(o[a] == order[a]);
        } else if a < p {
            assert(o[a] == order[a] && o[b] == order[b - 1]);
        } else if a == p {
            assert(o[b] == order[b - 1]);
        } else {
            assert(o[a] == order[a - 1] && o[b] == order[b - 1]);
        }
    }
    assert forall|k: int| 0 <= k < o.len() implies #[trigger] o[k] < i + 1 by {
        if k < p {
            assert(o[k] == order[k]);
        } else if k > p {
            assert(o[k] == order[k - 1]);
        }
    }
}

/// The positions of `files` from the newest to the oldest (see
/// `newest_first`).
pub fn newest_first_order(files: &Vec<LogFileInfo>) -> (order: Vec<usize>)
    ensures
        newest_first(files@, order@),
{
    let mut order: Vec<usize> = Vec::new();
    let mut i: usize = 0;
    while i < files.len()
        invariant
            i <= files@.len(),
            order@.len() == i,
            forall|k: int| 0 <= k < order@.len() ==> #[trigger] order@[k] < i,
            forall|a: int, b: int| 0 <= a < b < order@.len() ==> #[trigger] order@[a] != #[trigger] order@[b],
            forall|a: int, b: int|
                0 <= a < b < order@.len() ==> files@[#[trigger] order@[a] as int].modified_nanos
                    > files@[#[trigger] order@[b] as int].modified_nanos || (
                files@[order@[a] as int].modified_nanos == files@[order@[b] as int].modified_nanos
                    && order@[a] < order@[b]),
        decreases files@.len() - i,
    {
        let m = files[i].modified_nanos;
        let mut p: usize = 0;
        while p < order.len() && files[order[p]].modified_nanos >= m
            invariant
                p <= order@.len(),
                i < files@.len(),
                m == files@[i as int].modified_nanos,
                forall|k: int| 0 <= k < order@.len() ==> #[trigger] order@[k] < i,
                forall|k: int| 0 <= k < p ==> files@[#[trigger] order@[k] as int].modified_nanos >= m,
            decreases order@.len() - p,
        {
            p = p + 1;
        }
        proof {
            lemma_newest_first_insert(files@, order@, i, p as int);
        }
        order.insert(p, i);
        i = i + 1;
    }
    order
}

/// What to compress and what to delete when cleaning up the log folder (see
/// `cleanup_plan`); `files` are the logger's files found there and `now` the
/// time in nanoseconds since the epoch.
#[verifier::rlimit(40)]
pub fn plan_log_cleanup(files: &Vec<LogFileInfo>, max_files: usize, compress_old: bool, now: u128) -> (r:
    CleanupPlan)
    ensures
        exists|order: Seq<usize>|
            newest_first(files@, order) && (name_views(r.compress@), name_views(r.delete@))
                == cleanup_plan(files@, order, max_files, compress_old, now),
{
    let order = newest_first_order(files);
    let ghost sorted = in_order(files@, order@);
    let mut compress: Vec<String> = Vec::new();
    let mut delete: Vec<String> = Vec::new();
    if max_files == 0 && !compress_old {
        proof {
            assert(name_views(compress@) =~= Seq::<Seq<char>>::empty());
            assert(name_views(delete@) =~= Seq::<Seq<char>>::empty());
        }
        return CleanupPlan { compress, delete };
    }
    if compress_old {
        let mut k: usize = 0;
        while k < order.len()
            invariant
                k <= order@.len(),
                newest_first(files@, order@),
                sorted == in_order(files@, order@),
                name_views(compress@) == compress_names(sorted.take(k as int), now),
            decreases order@.len() - k,
        {
            proof {
                assert(sorted.take(k + 1).drop_last() =~= sorted.take(k as int));
                assert(sorted[k as int] == files@[order@[k as int] as int]);
            }
            let f = &files[order[k]];
            if !f.is_gz && now >= f.modified_nanos && now - f.modified_nanos >= 86_400_000_000_000 {
                compress.push(f.name.clone());
                assert(name_views(compress@) =~= compress_names(sorted.take(k as int), now).push(
                    f.name@,
                ));
            }
            k = k + 1;
        }
        proof {
            assert(sorted.take(order@.len() as int) =~= sorted);
        }
    } else {
        assert(name_views(compress@) =~= Seq::<Seq<char>>::empty());
    }
    if files.len() > max_files && max_files > 0 {
        let mut k: usize = max_files;
        while k < order.len()
            invariant
                max_files <= k <= order@.len(),
                order@.len() == files@.len(),
                newest_first(files@, order@),
                sorted == in_order(files@, order@),
                name_views(delete@) == names_of(sorted.subrange(max_files as int, k as int)),
            decreases order@.len() - k,
        {
            proof {
                assert(sorted[k as int] == files@[order@[k as int] as int]);
            }
            let ghost before = delete@;
            delete.push(files[order[k]].name.clone());
            proof {
                let a = sorted.subrange(max_files as int, k as int);
                let b = sorted.subrange(max_files as int, k + 1);
                assert(b =~= a.push(sorted[k as int]));
                assert(names_of(b) =~= names_of(a).push(sorted[k as int].name@));
                assert(name_views(delete@) =~= name_views(before).push(sorted[k as int].name@));
            }
            k = k + 1;
        }
        proof {
            assert(sorted.subrange(max_files as int, order@.len() as int) =~= sorted.skip(
                max_files as int,
            ));
        }
    } else {
        assert(name_views(delete@) =~= Seq::<Seq<char>>::empty());
    }
    CleanupPlan { compress, delete }
}


// ---------------------------------------------------------------------------
// Local time and compression
// ---------------------------------------------------------------------------

/// A local date and time as chrono reports it; a leap second shows as a
/// nanosecond count of a second or more.
#[derive(Debug, Clone, Copy)]
pub struct LocalDateTime {
    pub year: i32,
    pub month: u32,
    pub day: u32,
    pub hour: u32,
    pub minute: u32,
    pub second: u32,
    pub nanosecond: u32,
}

/// The fields are in the ranges chrono documents.
pub open spec fn fields_in_range(t: LocalDateTime) -> bool {
    &&& 1 <= t.month <= 12
    &&& 1 <= t.day <= 31
    &&& t.hour <= 23
    &&& t.minute <= 59
    &&& t.second <= 59
    &&& t.nanosecond < 2_000_000_000
}

/// The current local date and time (`chrono::Local::now`, read through its
/// `Datelike` and `Timelike` accessors). Of the value only the ranges that
/// chrono documents for each field are promised: it is the current time.
#[verifier::external_body]
fn local_now() -> (t: LocalDateTime)
    ensures
        fields_in_range(t),
{
    let now = chrono::Local::now();
    LocalDateTime {
        year: now.year(),
        month: now.month(),
        day: now.day(),
        hour: now.hour(),
        minute: now.minute(),
        second: now.second(),
        nanosecond: now.nanosecond(),
    }
}

/// A year as chrono's `%Y` writes it: four digits with leading zeros for
/// years 0 to 9999, else a sign and at least four digits.
pub open spec fn year_text(y: int) -> Seq<char> {
    if 0 <= y <= 9999 {
        zero_pad(decimal(y as nat), 4)
    } else if y < 0 {
        seq!['-'] + zero_pad(decimal((-y) as nat), 4)
    } else {
        seq!['+'] + zero_pad(decimal(y as nat), 4)
    }
}

/// Two digits, as chrono writes a month, a day, an hour, a minute, a second.
pub open spec fn two_digits(n: nat) -> Seq<char> {
    zero_pad(decimal(n), 2)
}

/// `%Y-%m-%d`.
pub open spec fn date_text(t: LocalDateTime) -> Seq<char> {
    year_text(t.year as int) + seq!['-'] + two_digits(t.month as nat) + seq!['-'] + two_digits(
        t.day as nat,
    )
}

/// `%Y-%m-%d %H:%M:%S` (a leap second shows as second 60).
pub open spec fn timestamp_text(t: LocalDateTime) -> Seq<char> {
    date_text(t) + seq![' '] + two_digits(t.hour as nat) + seq![':'] + two_digits(t.minute as nat)
        + seq![':'] + two_digits((t.second + t.nanosecond / 1_000_000_000) as nat)
}

fn push_year(v: &mut Vec<char>, y: i32)
    ensures
        final(v)@ == old(v)@ + year_text(y as int),
{
    if 0 <= y && y <= 9999 {
        push_zero_padded(v, y as u64, 4);
    } else if y < 0 {
        v.push('-');
        let m: u64 = (0 - (y as i64)) as u64;
        push_zero_padded(v, m, 4);
        assert(final(v)@ =~= old(v)@ + year_text(y as int));
    } else {
        v.push('+');
        push_zero_padded(v, y as u64, 4);
        assert(final(v)@ =~= old(v)@ + year_text(y as int));
    }
}

/// The date of `t` as `YYYY-MM-DD`.
pub fn format_date(t: &LocalDateTime) -> (r: String)
    ensures
        r@ == date_text(*t),
{
    let mut v: Vec<char> = Vec::new();
    push_year(&mut v, t.year);
    v.push('-');
    push_zero_padded(&mut v, t.month as u64, 2);
    v.push('-');
    push_zero_padded(&mut v, t.day as u64, 2);
    assert(v@ =~= date_text(*t));
    string_from_chars(&v)
}

/// The date and time of `t` as `YYYY-MM-DD HH:MM:SS`.
pub fn format_timestamp(t: &LocalDateTime) -> (r: String)
    requires
        t.nanosecond < 2_000_000_000,
    ensures
        r@ == timestamp_text(*t),
{
    let mut v: Vec<char> = Vec::new();
    push_year(&mut v, t.year);
    v.push('-');
    push_zero_padded(&mut v, t.month as u64, 2);
    v.push('-');
    push_zero_padded(&mut v, t.day as u64, 2);
    v.push(' ');
    push_zero_padded(&mut v, t.hour as u64, 2);
    v.push(':');
    push_zero_padded(&mut v, t.minute as u64, 2);
    v.push(':');
    push_zero_padded(&mut v, (t.second as u64) + (t.nanosecond / 1_000_000_000) as u64, 2);
    assert(v@ =~= timestamp_text(*t));
    string_from_chars(&v)
}

/// Today's local date as `YYYY-MM-DD`, the date in log file names.
pub fn get_date_string() -> (r: String)
    ensures
        exists|t: LocalDateTime| fields_in_range(t) && r@ == date_text(t),
{
    let t = local_now();
    format_date(&t)
}

/// The local time now as `YYYY-MM-DD HH:MM:SS`, the time of log entries.
pub fn get_timestamp() -> (r: String)
    ensures
        exists|t: LocalDateTime| fields_in_range(t) && r@ == timestamp_text(t),
{
    let t = local_now();
    format_timestamp(&t)
}

proof fn lemma_decimal_short(n: nat)
    requires
        n < 100,
    ensures
        n < 10 ==> decimal(n).len() == 1,
        n >= 10 ==> decimal(n).len() == 2,
{
    if n >= 10 {
        assert(decimal(n / 10).len() == 1);
    }
}

proof fn lemma_decimal_four(n: nat)
    requires
        n < 10000,
    ensures
        decimal(n).len() <= 4,
    decreases n,
{
    if n >= 10 {
        lemma_decimal_three(n / 10);
    }
}

proof fn lemma_decimal_three(n: nat)
    requires
        n < 1000,
    ensures
        decimal(n).len() <= 3,
    decreases n,
{
    if n >= 10 {
        lemma_decimal_short(n / 10);
    }
}

/// For the years 0 to 9999 and fields in range, the timestamp of a log entry
/// has exactly 19 characters: `YYYY-MM-DD HH:MM:SS`.
pub proof fn lemma_timestamp_has_19_chars(t: LocalDateTime)
    requires
        fields_in_range(t),
        0 <= t.year <= 9999,
    ensures
        timestamp_text(t).len() == 19,
        date_text(t).len() == 10,
{
    lemma_decimal_four(t.year as nat);
    lemma_decimal_short(t.month as nat);
    lemma_decimal_short(t.day as nat);
    lemma_decimal_short(t.hour as nat);
    lemma_decimal_short(t.minute as nat);
    let s = (t.second + t.nanosecond / 1_000_000_000) as nat;
    lemma_decimal_short(s);
}

/// What gzip compression (flate2's `GzEncoder` at the default level, writing
/// into memory) gives for `data`.
pub uninterp spec fn gzip_of(data: Seq<u8>) -> Seq<u8>;

/// The step of gzip compression that failed.
pub enum GzipFailure {
    /// Writing the data into the encoder.
    Write(std::io::Error),
    /// Finishing the stream.
    Finish(std::io::Error),
}

/// Compresses `data` into a gzip stream with flate2's `GzEncoder` (default
/// level, writing into memory): the stream is named by `gzip_of`. It always
/// succeeds: the encoder's only errors come from its inner writer, and
/// writing into a `Vec` cannot fail (flate2's `zio::Writer` and
/// `GzEncoder::try_finish` pass on only the writer's errors).
#[verifier::external_body]
fn gzip_encode(data: &[u8]) -> (r: Result<Vec<u8>, GzipFailure>)
    ensures
        r.is_ok(),
        r matches Ok(v) ==> v@ == gzip_of(data@),
{
    let mut encoder = flate2::write::GzEncoder::new(Vec::new(), flate2::Compression::default());
    match std::io::Write::write_all(&mut encoder, data) {
        Ok(()) => match encoder.finish() {
            Ok(v) => Ok(v),
            Err(e) => Err(GzipFailure::Finish(e)),
        },
        Err(e) => Err(GzipFailure::Write(e)),
    }
}

/// The text of an I/O error (its `Display`).
#[verifier::external_body]
fn io_error_text(e: &std::io::Error) -> String {
    format!("{}", e)
}

/// The gzip stream of a log file's contents (always produced; an encoder
/// error would become `Failed to compress data: {error}`, an error finishing
/// the stream `Failed to finish gzip encoding: {error}`).
pub fn compress_log_file(data: &[u8]) -> (r: Result<Vec<u8>, String>)
    ensures
        r matches Ok(v) && v@ == gzip_of(data@),
{
    match gzip_encode(data) {
        Ok(v) => Ok(v),
        Err(GzipFailure::Write(e)) => {
            let mut m = chars_of("Failed to compress data: ");
            let t = io_error_text(&e);
            push_str(&mut m, t.as_str());
            proof {
                assert(m@.subrange(0, "Failed to compress data: "@.len() as int) =~= "Failed to compress data: "@);
            }
            Err(string_from_chars(&m))
        },
        Err(GzipFailure::Finish(e)) => {
            let mut m = chars_of("Failed to finish gzip encoding: ");
            let t = io_error_text(&e);
            push_str(&mut m, t.as_str());
            proof {
                assert(m@.subrange(0, "Failed to finish gzip encoding: "@.len() as int) =~= "Failed to finish gzip encoding: "@);
            }
            Err(string_from_chars(&m))
        },
    }
}

} // verus!
