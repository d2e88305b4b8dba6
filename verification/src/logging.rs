//! Rules of the rolling log file: the calendar date of a time stamp, the line
//! format, the names of rolled files, when the current file rolls, which rolled
//! files the retention rules delete, and where the files live.

use vstd::prelude::*;
use crate::config::LogConfig;
use crate::text::{chars_of, decimal, decimal_padded, eq_ignore_ascii_case, push_all, push_decimal, push_decimal_padded, push_str, string_from, chars_eq_ignore_ascii_case, chars_starts_with};

verus! {

// ───────────────────────── calendar ─────────────────────────

#[verifier::rlimit(100)]
proof fn lemma_year_of_era(doe: u32)
    by (bit_vector)
    requires
        doe < 146097,
    ensures
        (doe - doe / 1460 + doe / 36524 - doe / 146096) / 365 <= 399,
        365 * ((doe - doe / 1460 + doe / 36524 - doe / 146096) / 365) + ((doe - doe / 1460 + doe
            / 36524 - doe / 146096) / 365) / 4 - ((doe - doe / 1460 + doe / 36524 - doe / 146096)
            / 365) / 100 <= doe,
        doe - (365 * ((doe - doe / 1460 + doe / 36524 - doe / 146096) / 365) + ((doe - doe / 1460
            + doe / 36524 - doe / 146096) / 365) / 4 - ((doe - doe / 1460 + doe / 36524 - doe
            / 146096) / 365) / 100) <= 365,
{
}

proof fn lemma_month_of_year(doy: u32)
    by (bit_vector)
    requires
        doy <= 365,
    ensures
        (5 * doy + 2) / 153 <= 11,
        (153 * ((5 * doy + 2) / 153) + 2) / 5 <= doy,
        doy - (153 * ((5 * doy + 2) / 153) + 2) / 5 <= 30,
{
}

proof fn lemma_month_length(doy: int)
    requires
        0 <= doy <= 365,
    ensures
        ((5 * doy + 2) / 153 == 1 || (5 * doy + 2) / 153 == 3 || (5 * doy + 2) / 153 == 6 || (5 * doy + 2) / 153
            == 8) ==> doy - (153 * ((5 * doy + 2) / 153) + 2) / 5 <= 29,
        (5 * doy + 2) / 153 == 11 ==> doy - (153 * ((5 * doy + 2) / 153) + 2) / 5 <= 28,
        ((5 * doy + 2) / 153 == 11 && doy - (153 * ((5 * doy + 2) / 153) + 2) / 5 == 28) ==> doy == 365,
{
}

proof fn lemma_leap_day(doe: u32, yoe: u32, doy: u32)
    by (bit_vector)
    requires
        doe < 146097,
        yoe == ((doe - doe / 1460 + doe / 36524 - doe / 146096) / 365) as u32,
        doy == (doe - (365 * yoe + yoe / 4 - yoe / 100)) as u32,
    ensures
        doy == 365u32 ==> yoe % 4u32 == 3u32 && (yoe % 100u32 != 99u32 || yoe % 400u32 == 399u32),
{
}

/// A leap year of the proleptic Gregorian calendar.
pub open spec fn is_leap(y: int) -> bool {
    y % 4 == 0 && (y % 100 != 0 || y % 400 == 0)
}

/// The number of days of month `m` (1..=12) of year `y`.
pub open spec fn days_in_month(y: int, m: int) -> int {
    if m == 2 {
        if is_leap(y) { 29 } else { 28 }
    } else if m == 4 || m == 6 || m == 9 || m == 11 {
        30
    } else {
        31
    }
}

/// Days since 1970-01-01 of a proleptic Gregorian date (`m` in 1..=12).
pub open spec fn days_from_civil(y: int, m: int, d: int) -> int {
    let y2 = if m <= 2 {
        y - 1
    } else {
        y
    };
    let era = y2 / 400;
    let yoe = y2 - era * 400;
    let mp = if m > 2 {
        m - 3
    } else {
        m + 9
    };
    let doy = (153 * mp + 2) / 5 + d - 1;
    let doe = yoe * 365 + yoe / 4 - yoe / 100 + doy;
    era * 146097 + doe - 719468
}

/// The largest day number a Unix time in seconds can reach.
pub const MAX_UNIX_DAY: i64 = 213503982334601;

/// The smallest day number taken: as far before 1970 as [`MAX_UNIX_DAY`] is after.
pub const MIN_CIVIL_DAY: i64 = -213503982334601;

/// Whole 400-year eras added to a day number so that it counts from before
/// [`MIN_CIVIL_DAY`] (and is never negative), then taken off the year again.
pub const ERA_SHIFT: u64 = 1500000000;

/// Date (year, month, day) of the day `z` days after 1970-01-01 (before it when
/// `z` is negative): a valid month and day of month, and the date that gives `z`
/// back.
pub fn civil_from_days(z: i64) -> (r: (i64, u32, u32))
    requires
        MIN_CIVIL_DAY <= z <= MAX_UNIX_DAY,
    ensures
        z >= 0 ==> r.0 >= 0,
        1 <= r.1 <= 12,
        1 <= r.2 <= days_in_month(r.0 as int, r.1 as int),
        days_from_civil(r.0 as int, r.1 as int, r.2 as int) == z,
{
    let z2: u64 = (z + 719_468 + (ERA_SHIFT * 146_097) as i64) as u64;
    let shifted_era: u64 = z2 / 146_097;
    let doe: u64 = z2 - shifted_era * 146_097;
    proof {
        lemma_year_of_era(doe as u32);
        assert(shifted_era <= z2 / 146_097);
        assert(shifted_era * 146_097 <= z2);
        assert(shifted_era <= 3_000_000_000) by (nonlinear_arith)
            requires
                shifted_era * 146_097 <= z2,
                z2 <= 213503982334601 + 719_468 + 1500000000 * 146_097,
        ;
        if z >= 0 {
            assert(shifted_era >= ERA_SHIFT) by (nonlinear_arith)
                requires
                    z2 >= 1500000000 * 146_097,
                    shifted_era == z2 / 146_097,
            ;
        }
    }
    let era: i64 = shifted_era as i64 - ERA_SHIFT as i64;
    let yoe: u64 = (doe - doe / 1460 + doe / 36_524 - doe / 146_096) / 365;
    let y: i64 = yoe as i64 + era * 400;
    let doy: u64 = doe - (365 * yoe + yoe / 4 - yoe / 100);
    proof {
        lemma_month_of_year(doy as u32);
        lemma_month_length(doy as int);
        lemma_leap_day(doe as u32, yoe as u32, doy as u32);
    }
    let mp: u64 = (5 * doy + 2) / 153;
    let d: u32 = (doy - (153 * mp + 2) / 5 + 1) as u32;
    let m: u32 = if mp < 10 {
        (mp + 3) as u32
    } else {
        (mp - 9) as u32
    };
    let year: i64 = if m <= 2 {
        y + 1
    } else {
        y
    };
    proof {
        let y2 = if m <= 2 {
            year - 1
        } else {
            year as int
        };
        assert(y2 == yoe + era * 400);
        assert(y2 / 400 == era) by (nonlinear_arith)
            requires
                y2 == yoe + era * 400,
                0 <= yoe <= 399,
        ;
        let mp2 = if m > 2 {
            m - 3
        } else {
            m + 9
        };
        assert(mp2 == mp);
        if m == 2 && d == 29 {
            assert(doy == 365);
            assert(year == yoe + 1 + era * 400);
            assert(is_leap(year as int)) by (nonlinear_arith)
                requires
                    year == yoe + 1 + era * 400,
                    yoe % 4 == 3 && (yoe % 100 != 99 || yoe % 400 == 399),
                    yoe >= 0,
            ;
        }
    }
    (year, m, d)
}

/// Local time as (year, month, day, hour, minute, second).
pub type TimeParts = (u16, u16, u16, u16, u16, u16);

/// The time parts of a Unix time, counted in UTC (where no time zone can be read).
pub fn utc_time_parts(unix_secs: u64) -> (r: TimeParts)
    ensures
        1 <= r.1 <= 12,
        1 <= r.2 <= 31,
        r.3 == (unix_secs % 86400) / 3600,
        r.4 == (unix_secs % 3600) / 60,
        r.5 == unix_secs % 60,
        exists|y: int|
            y >= 0 && y % 65536 == r.0 && r.2 <= days_in_month(y, r.1 as int) && #[trigger] days_from_civil(
                y,
                r.1 as int,
                r.2 as int,
            ) == unix_secs / 86400,
{
    let days = (unix_secs / 86_400) as i64;
    let rem = unix_secs % 86_400;
    let (y, mo, d) = civil_from_days(days);
    let year = (y % 65_536) as u16;
    proof {
        assert(d <= 31);
        assert((unix_secs % 86400) % 3600 == unix_secs % 3600) by (nonlinear_arith);
        assert((unix_secs % 86400) % 60 == unix_secs % 60) by (nonlinear_arith);
        assert(y % 65536 == year);
        assert(days_from_civil(y as int, mo as int, d as int) == unix_secs / 86400);
    }
    (year, mo as u16, d as u16, (rem / 3600) as u16, ((rem % 3600) / 60) as u16, (rem % 60) as u16)
}

/// `HH:MM:SS`.
pub open spec fn hms_text(h: nat, mi: nat, s: nat) -> Seq<char> {
    decimal_padded(h, 2) + seq![':'] + decimal_padded(mi, 2) + seq![':'] + decimal_padded(s, 2)
}

/// The clock time of the given parts, `HH:MM:SS`.
pub fn now_hms(parts: TimeParts) -> (r: String)
    ensures
        r@ == hms_text(parts.3 as nat, parts.4 as nat, parts.5 as nat),
{
    let mut v: Vec<char> = Vec::new();
    push_hms(&mut v, parts.3, parts.4, parts.5);
    assert(v@ =~= hms_text(parts.3 as nat, parts.4 as nat, parts.5 as nat));
    string_from(v.as_slice())
}

// ───────────────────────── lines ─────────────────────────

/// The levels of log records, most severe first.
#[derive(Clone, Copy, Debug, PartialEq, Eq, Structural)]
pub enum Severity {
    Error,
    Warn,
    Info,
    Debug,
    Trace,
}

pub open spec fn severity_rank(s: Severity) -> nat {
    match s {
        Severity::Error => 1,
        Severity::Warn => 2,
        Severity::Info => 3,
        Severity::Debug => 4,
        Severity::Trace => 5,
    }
}

pub open spec fn severity_name(s: Severity) -> Seq<char> {
    match s {
        Severity::Error => "ERROR"@,
        Severity::Warn => "WARN"@,
        Severity::Info => "INFO"@,
        Severity::Debug => "DEBUG"@,
        Severity::Trace => "TRACE"@,
    }
}

/// Where a record goes on the console: `None` when it is less severe than the
/// console's level, else `Some(true)` for the error stream (warnings and errors)
/// and `Some(false)` for the output stream.
pub fn console_stream(level: Severity, console_max: Severity) -> (r: Option<bool>)
    ensures
        r == (if severity_rank(level) <= severity_rank(console_max) {
            Some(severity_rank(level) <= 2)
        } else {
            None
        }),
{
    let rank = |s: Severity| -> (n: u8)
        ensures
            n == severity_rank(s),
        {
            match s {
                Severity::Error => 1u8,
                Severity::Warn => 2u8,
                Severity::Info => 3u8,
                Severity::Debug => 4u8,
                Severity::Trace => 5u8,
            }
        };
    let l = rank(level);
    if l <= rank(console_max) {
        Some(l <= 2)
    } else {
        None
    }
}

/// `YYYY-MM-DD`.
pub open spec fn date_text(y: nat, m: nat, d: nat) -> Seq<char> {
    decimal_padded(y, 4) + seq!['-'] + decimal_padded(m, 2) + seq!['-'] + decimal_padded(d, 2)
}

/// `YYYY-MM-DD HH:MM:SS`.
pub open spec fn stamp_text(p: TimeParts) -> Seq<char> {
    date_text(p.0 as nat, p.1 as nat, p.2 as nat) + seq![' '] + hms_text(p.3 as nat, p.4 as nat, p.5 as nat)
}

fn push_date(v: &mut Vec<char>, y: u16, m: u16, d: u16)
    ensures
        final(v)@ == old(v)@ + date_text(y as nat, m as nat, d as nat),
{
    push_decimal_padded(v, y as u64, 4);
    v.push('-');
    push_decimal_padded(v, m as u64, 2);
    v.push('-');
    push_decimal_padded(v, d as u64, 2);
    assert(v@ =~= old(v)@ + date_text(y as nat, m as nat, d as nat));
}

fn push_hms(v: &mut Vec<char>, h: u16, mi: u16, s: u16)
    ensures
        final(v)@ == old(v)@ + hms_text(h as nat, mi as nat, s as nat),
{
    push_decimal_padded(v, h as u64, 2);
    v.push(':');
    push_decimal_padded(v, mi as u64, 2);
    v.push(':');
    push_decimal_padded(v, s as u64, 2);
    assert(v@ =~= old(v)@ + hms_text(h as nat, mi as nat, s as nat));
}

/// The level's name padded with spaces to five characters.
pub open spec fn padded_level(level: Severity) -> Seq<char> {
    let name = severity_name(level);
    name + Seq::new((5 - name.len()) as nat, |i: int| ' ')
}

/// A record's line: `YYYY-MM-DD HH:MM:SS [LEVEL] target: message`, the level
/// padded to five characters, ending with a line break.
pub open spec fn log_line_text(p: TimeParts, level: Severity, target: Seq<char>, message: Seq<char>) -> Seq<char> {
    stamp_text(p) + " ["@ + padded_level(level) + "] "@ + target + ": "@ + message + seq!['\n']
}

fn push_stamp(v: &mut Vec<char>, parts: TimeParts)
    ensures
        final(v)@ == old(v)@ + stamp_text(parts),
{
    push_date(v, parts.0, parts.1, parts.2);
    v.push(' ');
    push_hms(v, parts.3, parts.4, parts.5);
    assert(v@ =~= old(v)@ + stamp_text(parts));
}

fn push_padded_level(v: &mut Vec<char>, level: Severity)
    ensures
        final(v)@ == old(v)@ + padded_level(level),
{
    let name = severity_text(level);
    proof {
        reveal_strlit("ERROR");
        reveal_strlit("WARN");
        reveal_strlit("INFO");
        reveal_strlit("DEBUG");
        reveal_strlit("TRACE");
    }
    let name_chars = chars_of(name);
    push_all(v, name_chars.as_slice());
    let ghost before_pad = v@;
    let mut k = name_chars.len();
    while k < 5
        invariant
            name_chars@.len() <= k <= 5,
            v@ == before_pad + Seq::new((k - name_chars@.len()) as nat, |i: int| ' '),
        decreases 5 - k,
    {
        v.push(' ');
        k = k + 1;
        assert(v@ =~= before_pad + Seq::new((k - name_chars@.len()) as nat, |i: int| ' '));
    }
    assert(v@ =~= old(v)@ + padded_level(level));
}

fn severity_text(level: Severity) -> (r: &'static str)
    ensures
        r@ == severity_name(level),
{
    match level {
        Severity::Error => "ERROR",
        Severity::Warn => "WARN",
        Severity::Info => "INFO",
        Severity::Debug => "DEBUG",
        Severity::Trace => "TRACE",
    }
}

/// Formats one record.
pub fn log_line(parts: TimeParts, level: Severity, target: &str, message: &str) -> (r: String)
    ensures
        r@ == log_line_text(parts, level, target@, message@),
{
    let mut v: Vec<char> = Vec::new();
    push_stamp(&mut v, parts);
    push_str(&mut v, " [");
    push_padded_level(&mut v, level);
    push_str(&mut v, "] ");
    push_str(&mut v, target);
    push_str(&mut v, ": ");
    push_str(&mut v, message);
    v.push('\n');
    let r = string_from(v.as_slice());
    assert(r@ =~= log_line_text(parts, level, target@, message@));
    r
}

// ───────────────────────── files ─────────────────────────

/// Name of the file being written.
pub const LOG_FILE_NAME: &'static str = "app.log";

/// Name of a rolled file: `app-YYYYMMDD-HHMMSS.log`, with `-n` before `.log` for
/// the `n`-th other file of the same second.
pub open spec fn rolled_name(p: TimeParts, dedup: u32) -> Seq<char> {
    "app-"@ + decimal_padded(p.0 as nat, 4) + decimal_padded(p.1 as nat, 2) + decimal_padded(
        p.2 as nat,
        2,
    ) + seq!['-'] + decimal_padded(p.3 as nat, 2) + decimal_padded(p.4 as nat, 2) + decimal_padded(
        p.5 as nat,
        2,
    ) + (if dedup == 0 {
        Seq::empty()
    } else {
        seq!['-'] + decimal(dedup as nat)
    }) + ".log"@
}

/// At most this many other names are tried for files rolled in the same second.
pub const MAX_ROLL_DEDUP: u32 = 100;

/// The name of a rolled file; `dedup` 0 is the plain name.
pub fn rolled_log_name(parts: TimeParts, dedup: u32) -> (r: String)
    ensures
        r@ == rolled_name(parts, dedup),
{
    let mut v: Vec<char> = Vec::new();
    push_str(&mut v, "app-");
    push_decimal_padded(&mut v, parts.0 as u64, 4);
    push_decimal_padded(&mut v, parts.1 as u64, 2);
    push_decimal_padded(&mut v, parts.2 as u64, 2);
    v.push('-');
    push_decimal_padded(&mut v, parts.3 as u64, 2);
    push_decimal_padded(&mut v, parts.4 as u64, 2);
    push_decimal_padded(&mut v, parts.5 as u64, 2);
    if dedup != 0 {
        v.push('-');
        push_decimal(&mut v, dedup as u64);
    }
    push_str(&mut v, ".log");
    let r = string_from(v.as_slice());
    assert(r@ =~= rolled_name(parts, dedup));
    r
}

/// The extension of a file name as `Path::extension` reads it: what follows the
/// last dot, unless that dot starts the name.
pub open spec fn extension_of(name: Seq<char>) -> Option<Seq<char>> {
    if exists|i: int| 0 < i < name.len() && name[i] == '.' {
        let i = choose|i: int|
            0 < i < name.len() && name[i] == '.' && forall|j: int| i < j < name.len() ==> name[j] != '.';
        Some(name.subrange(i + 1, name.len() as int))
    } else {
        None
    }
}

/// A log file: a file whose extension is `log` in any ASCII case.
pub open spec fn is_log_name(name: Seq<char>) -> bool {
    match extension_of(name) {
        Some(e) => eq_ignore_ascii_case(e, "log"@),
        None => false,
    }
}

/// Whether a directory entry is a log file, by its name and whether it is a file.
pub fn is_log_file(name: &str, is_file: bool) -> (r: bool)
    ensures
        r == (is_file && is_log_name(name@)),
{
    if !is_file {
        return false;
    }
    let cs = chars_of(name);
    let n = cs.len();
    let mut i = n;
    while i > 0 && cs[i - 1] != '.'
        invariant
            i <= n == cs@.len(),
            forall|j: int| i <= j < n ==> cs@[j] != '.',
        decreases i,
    {
        i = i - 1;
    }
    // `i - 1` is the last dot when `i > 0`.
    if i <= 1 {
        proof {
            if exists|k: int| 0 < k < n && cs@[k] == '.' {
                let k = choose|k: int| 0 < k < n && cs@[k] == '.';
                if i == 1 {
                    assert(cs@[0] == '.');
                }
                assert(k < i);
            }
        }
        return false;
    }
    let mut ext: Vec<char> = Vec::new();
    let mut j = i;
    while j < n
        invariant
            i <= j <= n == cs@.len(),
            ext@ == cs@.subrange(i as int, j as int),
        decreases n - j,
    {
        ext.push(cs[j]);
        j = j + 1;
        assert(ext@ =~= cs@.subrange(i as int, j as int));
    }
    let log = chars_of("log");
    let r = chars_eq_ignore_ascii_case(ext.as_slice(), log.as_slice());
    proof {
        let dot = (i - 1) as int;
        assert(cs@[dot] == '.');
        let w = choose|w: int|
            0 < w < n && cs@[w] == '.' && forall|t: int| w < t < n ==> cs@[t] != '.';
        assert(w == dot);
    }
    r
}

/// Prefix of rolled files.
pub open spec fn is_rolled_name(name: Seq<char>) -> bool {
    is_log_name(name) && name.len() >= 4 && name.subrange(0, 4) == "app-"@
}

/// Whether a directory entry is a rolled log file (the file being written is not).
pub fn is_rolled_log_file(name: &str, is_file: bool) -> (r: bool)
    ensures
        r == (is_file && is_rolled_name(name@)),
{
    if !is_log_file(name, is_file) {
        return false;
    }
    let cs = chars_of(name);
    let prefix = chars_of("app-");
    proof {
        reveal_strlit("app-");
    }
    let r = chars_starts_with(cs.as_slice(), prefix.as_slice());
    r
}

/// The current file rolls once it holds `max_file_size_mb` MiB or more; a limit of
/// zero never rolls.
pub fn should_roll(written: u64, max_file_size_mb: u32) -> (r: bool)
    ensures
        r == (max_file_size_mb > 0 && written >= max_file_size_mb * 1048576),
{
    let limit: u64 = max_file_size_mb as u64 * 1024 * 1024;
    limit > 0 && written >= limit
}

/// What the logger keeps besides the file handle itself: its settings, whether a
/// log file is open, and how many bytes the open file holds.
pub struct LogFileState {
    pub config: LogConfig,
    pub file_open: bool,
    pub written: u64,
}

/// Applies changed log settings. Turning file logging off closes the file (and
/// forgets its size); with it on, the result asks for the file to be (re)opened
/// when it was off before or no file is open.
pub fn update_config(state: &mut LogFileState, config: LogConfig) -> (reopen: bool)
    ensures
        final(state).config == config,
        !config.file_enabled ==> {
            &&& !final(state).file_open
            &&& final(state).written == 0
            &&& !reopen
        },
        config.file_enabled ==> {
            &&& final(state).file_open == old(state).file_open
            &&& final(state).written == old(state).written
            &&& reopen == (!old(state).config.file_enabled || !old(state).file_open)
        },
{
    let was_enabled = state.config.file_enabled;
    let now_enabled = config.file_enabled;
    state.config = config;
    if !now_enabled {
        state.file_open = false;
        state.written = 0;
        false
    } else {
        !was_enabled || !state.file_open
    }
}

/// Nanoseconds in a day.
pub const DAY_NANOS: i128 = 86_400_000_000_000;

/// Position of rolled file `i` from the newest, among the files `alive` keeps:
/// newer files first, files of the same time in listing order.
pub open spec fn newer_alive(times: Seq<i128>, alive: Seq<bool>, i: int) -> int {
    Set::new(|j: int| 0 <= j < times.len() && alive[j] && (times[j] > times[i] || (times[j] == times[i] && j < i))).len() as int
}

/// A rolled file modified `t` (nanoseconds from the Unix epoch) is older than
/// the age limit at `now`.
pub open spec fn too_old(t: i128, now: i128, max_age_days: u32) -> bool {
    max_age_days > 0 && t < now - max_age_days * DAY_NANOS
}

/// Which rolled files the retention rules delete, given their modification times:
/// those older than `max_age_days` days (when it is not zero), then, of the rest
/// from the newest, all beyond `max_files - 1` (the file being written counts as
/// one).
pub open spec fn retention_deletes(times: Seq<i128>, now: i128, max_age_days: u32, max_files: u32, i: int) -> bool {
    let alive = Seq::new(times.len(), |j: int| !too_old(times[j], now, max_age_days));
    !alive[i] || newer_alive(times, alive, i) >= (if max_files > 0 { max_files - 1 } else { 0 })
}

/// A rolled file older than the age limit is deleted, however few files there
/// are: with `max_age_days` set, one modified more than that many days (of
/// 86 400 s) before `now` goes.
pub proof fn lemma_old_files_are_deleted(times: Seq<i128>, now: i128, max_age_days: u32, max_files: u32, i: int)
    requires
        0 <= i < times.len(),
        max_age_days > 0,
        times[i] < now - max_age_days * 86_400_000_000_000,
    ensures
        retention_deletes(times, now, max_age_days, max_files, i),
{
}

/// Rolled file `j` is newer than rolled file `i`: modified later, or at the same
/// time and listed first.
pub open spec fn newer_than(times: Seq<i128>, i: int, j: int) -> bool {
    times[j] > times[i] || (times[j] == times[i] && j < i)
}

/// The rolled files the retention rules keep.
pub open spec fn kept_rolled(times: Seq<i128>, now: i128, max_age_days: u32, max_files: u32) -> Set<int> {
    Set::new(|i: int| 0 <= i < times.len() && !retention_deletes(times, now, max_age_days, max_files, i))
}

proof fn lemma_newer_set_finite(times: Seq<i128>, alive: Seq<bool>, i: int)
    ensures
        Set::new(|j: int| 0 <= j < times.len() && alive[j] && (times[j] > times[i] || (times[j] == times[i] && j < i))).finite(),
{
    let a = Set::new(|j: int| 0 <= j < times.len() && alive[j] && (times[j] > times[i] || (times[j] == times[i] && j < i)));
    vstd::set_lib::lemma_int_range(0, times.len() as int);
    vstd::set_lib::lemma_len_subset(a, vstd::set_lib::set_int_range(0, times.len() as int));
}

/// A file newer than another, and alive, has fewer newer alive files.
proof fn lemma_newer_ranks_lower(times: Seq<i128>, alive: Seq<bool>, i: int, j: int)
    requires
        0 <= i < times.len(),
        0 <= j < times.len(),
        alive.len() == times.len(),
        alive[j],
        newer_than(times, i, j),
    ensures
        newer_alive(times, alive, j) < newer_alive(times, alive, i),
{
    let a = Set::new(|t: int| 0 <= t < times.len() && alive[t] && (times[t] > times[i] || (times[t] == times[i] && t < i)));
    let b = Set::new(|t: int| 0 <= t < times.len() && alive[t] && (times[t] > times[j] || (times[t] == times[j] && t < j)));
    lemma_newer_set_finite(times, alive, i);
    assert(a.contains(j));
    assert(b.subset_of(a.remove(j))) by {
        assert forall|t: int| b.contains(t) implies a.remove(j).contains(t) by {}
    }
    vstd::set_lib::lemma_len_subset(b, a.remove(j));
}

/// Retention keeps the newest files: a file newer than one that is kept, and not
/// too old, is kept too.
pub proof fn lemma_retention_keeps_the_newest(
    times: Seq<i128>,
    now: i128,
    max_age_days: u32,
    max_files: u32,
    i: int,
    j: int,
)
    requires
        0 <= i < times.len(),
        0 <= j < times.len(),
        !retention_deletes(times, now, max_age_days, max_files, i),
        !too_old(times[j], now, max_age_days),
        newer_than(times, i, j),
    ensures
        !retention_deletes(times, now, max_age_days, max_files, j),
{
    let alive = Seq::new(times.len(), |k: int| !too_old(times[k], now, max_age_days));
    lemma_newer_ranks_lower(times, alive, i, j);
}

/// Retention keeps at most `max_files - 1` rolled files (none when `max_files`
/// is zero): with the file being written, at most `max_files` files remain.
pub proof fn lemma_retention_keeps_at_most_max_files(times: Seq<i128>, now: i128, max_age_days: u32, max_files: u32)
    ensures
        kept_rolled(times, now, max_age_days, max_files).finite(),
        kept_rolled(times, now, max_age_days, max_files).len() <= (if max_files > 0 { max_files - 1 } else { 0 }),
{
    let n = times.len() as int;
    let alive = Seq::new(times.len(), |k: int| !too_old(times[k], now, max_age_days));
    let limit: int = if max_files > 0 { max_files - 1 } else { 0 };
    let kept = kept_rolled(times, now, max_age_days, max_files);
    let rank = |i: int| newer_alive(times, alive, i);
    vstd::set_lib::lemma_int_range(0, n);
    vstd::set_lib::lemma_len_subset(kept, vstd::set_lib::set_int_range(0, n));
    assert forall|x: int, y: int| kept.contains(x) && kept.contains(y) && #[trigger] rank(x) == #[trigger] rank(y) implies x == y by {
        if x != y {
            if newer_than(times, x, y) {
                lemma_newer_ranks_lower(times, alive, x, y);
            } else {
                assert(newer_than(times, y, x));
                lemma_newer_ranks_lower(times, alive, y, x);
            }
        }
    }
    let ranks = kept.map(rank);
    vstd::set_lib::lemma_map_size(kept, ranks, rank);
    vstd::set_lib::lemma_int_range(0, limit);
    assert(ranks.subset_of(vstd::set_lib::set_int_range(0, limit))) by {
        assert forall|r: int| ranks.contains(r) implies 0 <= r < limit by {
            let x = choose|x: int| kept.contains(x) && rank(x) == r;
            lemma_newer_set_finite(times, alive, x);
        }
    }
    vstd::set_lib::lemma_len_subset(ranks, vstd::set_lib::set_int_range(0, limit));
}

/// For each rolled file, whether the retention rules delete it.
pub fn retention_plan(times: &Vec<i128>, now: i128, config: &LogConfig) -> (r: Vec<bool>)
    requires
        -1_000_000_000_000_000_000_000_000_000_000 <= now <= 1_000_000_000_000_000_000_000_000_000_000,
    ensures
        r@.len() == times@.len(),
        forall|i: int| 0 <= i < times@.len() ==> r@[i] == retention_deletes(
            times@,
            now,
            config.max_age_days,
            config.max_files,
            i,
        ),
        forall|i: int|
            0 <= i < times@.len() && config.max_age_days > 0 && times@[i] < now - config.max_age_days
                * 86_400_000_000_000 ==> #[trigger] r@[i],
{
    let ghost ts = times@;
    let days = config.max_age_days;
    assert((days as i128) * DAY_NANOS <= 4294967295 * 86_400_000_000_000) by (nonlinear_arith)
        requires
            days <= 4294967295,
    ;
    assert((days as i128) * DAY_NANOS >= 0) by (nonlinear_arith);
    let cutoff: i128 = now - (days as i128) * DAY_NANOS;
    let mut alive: Vec<bool> = Vec::new();
    let mut j: usize = 0;
    while j < times.len()
        invariant
            j <= times@.len(),
            cutoff == now - days * DAY_NANOS,
            days == config.max_age_days,
            alive@.len() == j,
            forall|k: int| 0 <= k < j ==> alive@[k] == !too_old(ts[k], now, days),
            ts == times@,
        decreases times@.len() - j,
    {
        alive.push(!(days > 0 && times[j] < cutoff));
        j = j + 1;
    }
    let ghost av = Seq::new(ts.len(), |k: int| !too_old(ts[k], now, days));
    assert(alive@ =~= av);
    let keep: u32 = if config.max_files > 0 {
        config.max_files - 1
    } else {
        0
    };
    let mut r: Vec<bool> = Vec::new();
    let mut i: usize = 0;
    while i < times.len()
        invariant
            i <= times@.len(),
            ts == times@,
            alive@ == av,
            av.len() == ts.len(),
            av == Seq::new(ts.len(), |k: int| !too_old(ts[k], now, days)),
            keep == (if config.max_files > 0 { config.max_files - 1 } else { 0 }),
            days == config.max_age_days,
            r@.len() == i,
            forall|k: int| 0 <= k < i ==> r@[k] == retention_deletes(ts, now, days, config.max_files, k),
        decreases times@.len() - i,
    {
        proof {
            assert(av =~= Seq::new(ts.len(), |j: int| !too_old(ts[j], now, config.max_age_days)));
        }
        if !alive[i] {
            r.push(true);
        } else {
            let mut count: u64 = 0;
            let mut k: usize = 0;
            let ghost newer = Set::new(|t: int| 0 <= t < ts.len() && av[t] && (ts[t] > ts[i as int] || (ts[t] == ts[i as int] && t < i)));
            assert(newer.filter(|t: int| t < 0) =~= Set::empty());
            while k < times.len()
                invariant
                    k <= times@.len(),
                    r@.len() == i,
                    forall|q: int| 0 <= q < i ==> r@[q] == retention_deletes(ts, now, days, config.max_files, q),
                    keep == (if config.max_files > 0 { config.max_files - 1 } else { 0 }),
                    days == config.max_age_days,
                    ts == times@,
                    alive@ == av,
                    av.len() == ts.len(),
                    i < ts.len(),
                    newer == Set::new(|t: int| 0 <= t < ts.len() && av[t] && (ts[t] > ts[i as int] || (ts[t] == ts[i as int] && t < i))),
                    count == newer.filter(|t: int| t < k).len(),
                    count <= k,
                decreases times@.len() - k,
            {
                let ghost before = newer.filter(|t: int| t < k);
                let is_newer = alive[k] && (times[k] > times[i] || (times[k] == times[i] && k < i));
                let ghost after = newer.filter(|t: int| t < k + 1);
                proof {
                    assert(before.subset_of(after));
                    if is_newer {
                        assert(after =~= before.insert(k as int));
                        assert(before.finite()) by {
                            assert(before.subset_of(Set::new(|t: int| 0 <= t < k)));
                            vstd::set_lib::lemma_int_range(0, k as int);
                            assert(Set::new(|t: int| 0 <= t < k) =~= vstd::set_lib::set_int_range(0, k as int));
                            vstd::set_lib::lemma_len_subset(before, vstd::set_lib::set_int_range(0, k as int));
                        }
                        assert(!before.contains(k as int));
                    } else {
                        assert(after =~= before);
                    }
                }
                if is_newer {
                    count = count + 1;
                }
                k = k + 1;
            }
            proof {
                assert(newer.filter(|t: int| t < k) =~= newer);
                assert(newer_alive(ts, av, i as int) == count);
            }
            r.push(count >= keep as u64);
        }
        i = i + 1;
    }
    proof {
        assert forall|i: int|
            0 <= i < times@.len() && config.max_age_days > 0 && times@[i] < now - config.max_age_days
                * 86_400_000_000_000 implies #[trigger] r@[i] by {
            lemma_old_files_are_deleted(times@, now, config.max_age_days, config.max_files, i);
        }
    }
    r
}

} // verus!
