//! Log planning: level filtering, line layout and size-limited rotation.
//!
//! Levels rank error (0) < warn (1) < info (2) < debug (3); a message is
//! written when its rank is at most the configured one. Before a line would
//! push the log file past its size limit, the file is rotated: the current
//! file becomes the single backup and a new file is started. The caller owns
//! the console and the file and reports back what happened to them.

use vstd::prelude::*;
use crate::text::{ascii_lowercase, equals_ascii_lowercase};
use vstd::utf8::encode_utf8;

verus! {

/// Severity of a message.
#[derive(Debug, Clone, Copy, PartialEq, Eq, Structural)]
pub enum Level {
    Error,
    Warn,
    Info,
    Debug,
}

/// Rank of a level: the lower, the more severe.
pub open spec fn level_rank(level: Level) -> u8 {
    match level {
        Level::Error => 0,
        Level::Warn => 1,
        Level::Info => 2,
        Level::Debug => 3,
    }
}

/// Rank of a configured level name, ignoring ASCII case; unknown names rank as info.
pub open spec fn rank_of_name(name: Seq<char>) -> u8 {
    let l = ascii_lowercase(name);
    if l == "error"@ {
        0
    } else if l == "warn"@ {
        1
    } else if l == "info"@ {
        2
    } else if l == "debug"@ {
        3
    } else {
        2
    }
}

/// The tag written in a log line for a level.
pub open spec fn level_tag(level: Level) -> Seq<char> {
    match level {
        Level::Error => "ERROR"@,
        Level::Warn => "WARN"@,
        Level::Info => "INFO"@,
        Level::Debug => "DEBUG"@,
    }
}

/// Reads a configured level name.
pub fn level_num(s: &str) -> (n: u8)
    ensures
        n == rank_of_name(s@),
{
    if equals_ascii_lowercase(s, "error") {
        0
    } else if equals_ascii_lowercase(s, "warn") {
        1
    } else if equals_ascii_lowercase(s, "info") {
        2
    } else if equals_ascii_lowercase(s, "debug") {
        3
    } else {
        2
    }
}

/// Every level's rank is read back from its tag.
pub proof fn lemma_level_names(level: Level)
    ensures
        rank_of_name(level_tag(level)) == level_rank(level),
{
    reveal_strlit("error");
    reveal_strlit("warn");
    reveal_strlit("info");
    reveal_strlit("debug");
    reveal_strlit("ERROR");
    reveal_strlit("WARN");
    reveal_strlit("INFO");
    reveal_strlit("DEBUG");
    let t = level_tag(level);
    let l = ascii_lowercase(t);
    match level {
        Level::Error => {
            assert(l =~= "error"@);
        },
        Level::Warn => {
            assert(l =~= "warn"@);
            assert(l.len() != "error"@.len());
        },
        Level::Info => {
            assert(l =~= "info"@);
            assert(l.len() != "error"@.len());
            assert(l[0] != "warn"@[0]);
        },
        Level::Debug => {
            assert(l =~= "debug"@);
            assert(l[0] != "error"@[0]);
            assert(l.len() != "warn"@.len());
            assert(l.len() != "info"@.len());
        },
    }
}

fn level_label(level: Level) -> (s: &'static str)
    ensures
        s@ == level_tag(level),
{
    match level {
        Level::Error => "ERROR",
        Level::Warn => "WARN",
        Level::Info => "INFO",
        Level::Debug => "DEBUG",
    }
}

/// What is known of the log file: whether one is open and how many bytes it holds.
#[derive(Debug, Clone, Copy, PartialEq, Eq, Structural)]
pub struct Sink {
    pub file_open: bool,
    pub written: u64,
}

/// The logger's settings and the state of its file.
pub struct Logger {
    /// Highest rank that is written.
    pub level: u8,
    /// Lines of info rank and below carry a dry-run mark.
    pub dry_run: bool,
    /// Path of the log file.
    pub log_path: String,
    /// Size limit of the file in bytes; 0 means no limit.
    pub max_bytes: u64,
    pub sink: Sink,
}

/// Size limit in bytes for a limit in KiB, saturating at the largest `u64`.
pub open spec fn limit_bytes(max_kb: u64) -> u64 {
    if max_kb * 1024 > u64::MAX {
        u64::MAX
    } else {
        (max_kb * 1024) as u64
    }
}

/// Sets the logger up; `sink` describes the log file as the caller opened it.
pub fn init(log_path: String, level: &str, dry_run: bool, max_kb: u64, sink: Sink) -> (l: Logger)
    ensures
        l.level == rank_of_name(level@),
        l.dry_run == dry_run,
        l.log_path == log_path,
        l.max_bytes == limit_bytes(max_kb),
        l.sink == sink,
{
    Logger {
        level: level_num(level),
        dry_run,
        log_path,
        max_bytes: if max_kb > u64::MAX / 1024 {
            u64::MAX
        } else {
            max_kb * 1024
        },
        sink,
    }
}

/// A line to write: to the console always, to the file when one is open,
/// rotating the file first when `rotate_first` holds.
pub struct Emission {
    pub line: String,
    pub rotate_first: bool,
}

/// The text of a log line.
pub open spec fn line_text(now: Seq<char>, level: Level, dry_run: bool, msg: Seq<char>) -> Seq<char> {
    let prefix = if dry_run && level_rank(level) >= 2 {
        "[dry-run] "@
    } else {
        Seq::<char>::empty()
    };
    now + " ["@ + level_tag(level) + "] "@ + prefix + msg + "\n"@
}

/// Length in bytes of the UTF-8 encoding of a text, as `str::len` reports it.
pub open spec fn byte_len(s: Seq<char>) -> nat {
    (encode_utf8(s).len() as usize) as nat
}

/// Whether writing `len` more bytes must first rotate the file.
pub open spec fn needs_rotation(sink: Sink, max_bytes: u64, len: nat) -> bool {
    sink.file_open && max_bytes > 0 && sink.written + len > max_bytes
}

/// Plans the output of one message at `now` (the caller's local time text).
pub fn write(logger: Option<&Logger>, level: Level, msg: &str, now: &str) -> (e: Option<Emission>)
    ensures
        planned(logger, level, msg@, now@, e),
{
    let l = match logger {
        Some(l) => l,
        None => {
            return None;
        },
    };
    let rank: u8 = match level {
        Level::Error => 0,
        Level::Warn => 1,
        Level::Info => 2,
        Level::Debug => 3,
    };
    if rank > l.level {
        return None;
    }
    let mut line = String::from_str(now);
    line.append(" [");
    line.append(level_label(level));
    line.append("] ");
    if l.dry_run && rank >= 2 {
        line.append("[dry-run] ");
    }
    line.append(msg);
    line.append("\n");
    proof {
        let prefix = if l.dry_run && level_rank(level) >= 2 {
            "[dry-run] "@
        } else {
            Seq::<char>::empty()
        };
        assert(line@ =~= now@ + " ["@ + level_tag(level) + "] "@ + prefix + msg@ + "\n"@);
    }
    let len = line.as_str().len();
    let rotate_first = l.sink.file_open && l.max_bytes > 0 && (l.sink.written as u128) + (
    len as u128) > (l.max_bytes as u128);
    Some(Emission { line, rotate_first })
}

/// Plans an error message.
pub fn error(logger: Option<&Logger>, msg: &str, now: &str) -> (e: Option<Emission>)
    ensures
        planned(logger, Level::Error, msg@, now@, e),
{
    write(logger, Level::Error, msg, now)
}

/// Plans a warning.
pub fn warn(logger: Option<&Logger>, msg: &str, now: &str) -> (e: Option<Emission>)
    ensures
        planned(logger, Level::Warn, msg@, now@, e),
{
    write(logger, Level::Warn, msg, now)
}

/// Plans an informational message.
pub fn info(logger: Option<&Logger>, msg: &str, now: &str) -> (e: Option<Emission>)
    ensures
        planned(logger, Level::Info, msg@, now@, e),
{
    write(logger, Level::Info, msg, now)
}

/// Plans a debugging message.
pub fn debug(logger: Option<&Logger>, msg: &str, now: &str) -> (e: Option<Emission>)
    ensures
        planned(logger, Level::Debug, msg@, now@, e),
{
    write(logger, Level::Debug, msg, now)
}

/// Whether actions are only to be reported; false before the logger is set up.
pub fn dry_run(logger: Option<&Logger>) -> (r: bool)
    ensures
        r == match logger {
            Some(l) => l.dry_run,
            None => false,
        },
{
    match logger {
        Some(l) => l.dry_run,
        None => false,
    }
}

impl Logger {
    /// The file was rotated and opened anew: `reopened` is the size of the new
    /// file, or `None` when no file could be opened.
    pub fn rotated(&mut self, reopened: Option<u64>)
        ensures
            final(self).sink == after_rotation(reopened),
            final(self).level == old(self).level,
            final(self).dry_run == old(self).dry_run,
            final(self).log_path == old(self).log_path,
            final(self).max_bytes == old(self).max_bytes,
    {
        self.sink = match reopened {
            Some(n) => Sink { file_open: true, written: n },
            None => Sink { file_open: false, written: 0 },
        };
    }

    /// A line of `len` bytes was written to the file (`ok`), or writing failed
    /// and only the console is used from now on. The byte count stops at the
    /// largest `u64`.
    pub fn file_written(&mut self, ok: bool, len: u64)
        ensures
            final(self).sink == after_file_write(old(self).sink, ok, len),
            final(self).level == old(self).level,
            final(self).dry_run == old(self).dry_run,
            final(self).log_path == old(self).log_path,
            final(self).max_bytes == old(self).max_bytes,
    {
        if ok {
            self.sink.written = if len > u64::MAX - self.sink.written {
                u64::MAX
            } else {
                self.sink.written + len
            };
        } else {
            self.sink.file_open = false;
        }
    }
}

/// The file's state after a rotation that opened a new file of the given
/// size, or none.
pub open spec fn after_rotation(reopened: Option<u64>) -> Sink {
    match reopened {
        Some(n) => Sink { file_open: true, written: n },
        None => Sink { file_open: false, written: 0 },
    }
}

/// The file's state after writing `len` bytes succeeded (`ok`) or failed;
/// the byte count stops at the largest `u64`.
pub open spec fn after_file_write(sink: Sink, ok: bool, len: u64) -> Sink {
    if ok {
        Sink {
            file_open: sink.file_open,
            written: if sink.written + len > u64::MAX {
                u64::MAX
            } else {
                (sink.written + len) as u64
            },
        }
    } else {
        Sink { file_open: false, written: sink.written }
    }
}

/// `e` is what `write` plans for the message.
pub open spec fn planned(
    logger: Option<&Logger>,
    level: Level,
    msg: Seq<char>,
    now: Seq<char>,
    e: Option<Emission>,
) -> bool {
    match logger {
        None => e is None,
        Some(l) => if level_rank(level) > l.level {
            e is None
        } else {
            &&& e is Some
            &&& e->0.line@ == line_text(now, level, l.dry_run, msg)
            &&& e->0.rotate_first == needs_rotation(l.sink, l.max_bytes, byte_len(e->0.line@))
        },
    }
}

/// The file's state after one line of `len` bytes is logged while every file
/// operation succeeds: rotating first when the limit calls for it, which
/// starts an empty file, then writing the line.
pub open spec fn logged_line(sink: Sink, max_bytes: u64, len: u64) -> Sink {
    let ready = if needs_rotation(sink, max_bytes, len as nat) {
        after_rotation(Some(0))
    } else {
        sink
    };
    after_file_write(ready, true, len)
}

/// The file's state after a sequence of lines is logged.
pub open spec fn logged_lines(sink: Sink, max_bytes: u64, lens: Seq<u64>) -> Sink
    decreases lens.len(),
{
    if lens.len() == 0 {
        sink
    } else {
        logged_line(logged_lines(sink, max_bytes, lens.drop_last()), max_bytes, lens.last())
    }
}

/// With a size limit and every file operation succeeding, a log file that is
/// within the limit stays within it after a line no longer than the limit;
/// when the line rotates the file, the file that becomes the backup is within
/// the limit too. So the current file and its one backup together hold at
/// most twice the limit.
pub proof fn lemma_log_within_limit(sink: Sink, max_bytes: u64, len: u64)
    requires
        sink.file_open,
        max_bytes > 0,
        sink.written <= max_bytes,
        len <= max_bytes,
    ensures
        logged_line(sink, max_bytes, len).file_open,
        logged_line(sink, max_bytes, len).written <= max_bytes,
        needs_rotation(sink, max_bytes, len as nat) ==> sink.written <= max_bytes,
{
}

/// The same for any number of lines, each no longer than the limit.
pub proof fn lemma_log_lines_within_limit(sink: Sink, max_bytes: u64, lens: Seq<u64>)
    requires
        sink.file_open,
        max_bytes > 0,
        sink.written <= max_bytes,
        forall|i: int| 0 <= i < lens.len() ==> #[trigger] lens[i] <= max_bytes,
    ensures
        logged_lines(sink, max_bytes, lens).file_open,
        logged_lines(sink, max_bytes, lens).written <= max_bytes,
    decreases lens.len(),
{
    if lens.len() > 0 {
        lemma_log_lines_within_limit(sink, max_bytes, lens.drop_last());
        assert(lens.last() == lens[lens.len() - 1]);
        lemma_log_within_limit(logged_lines(sink, max_bytes, lens.drop_last()), max_bytes, lens.last());
    }
}

} // verus!
