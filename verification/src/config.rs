//! Configuration model: sync jobs, log retention settings, interval presets and the
//! rules that keep them consistent when the UI saves a snapshot.

use vstd::prelude::*;
use crate::text::{
    chars_equal, chars_of, hex, owned, push_hex, push_str, string_from, trim, trim_chars,
};

verus! {

/// Default advertising-scan interval, in seconds.
pub fn default_scan_interval_secs() -> (r: u32)
    ensures
        r == 10,
{
    10
}

/// Default watch interval of a new sync job, in seconds.
pub fn default_sync_interval_secs() -> (r: u32)
    ensures
        r == 60,
{
    60
}

/// Default value of switches that are on unless the user turns them off.
pub fn default_true() -> (r: bool)
    ensures
        r,
{
    true
}

/// Default number of log files kept, the current one included.
pub fn default_max_files() -> (r: u32)
    ensures
        r == 10,
{
    10
}

/// Default number of days a rolled log file is kept.
pub fn default_max_age_days() -> (r: u32)
    ensures
        r == 30,
{
    30
}

/// Default size, in MB, at which the log file is rolled.
pub fn default_max_file_size_mb() -> (r: u32)
    ensures
        r == 5,
{
    5
}

/// The interval presets offered before the user adds any: 10 s, 30 s and 1 min.
pub fn default_interval_presets() -> (r: Vec<u32>)
    ensures
        r@ == seq![10u32, 30u32, 60u32],
{
    let mut v: Vec<u32> = Vec::new();
    v.push(10);
    v.push(30);
    v.push(60);
    v
}

// ───────────────────────── enums ─────────────────────────

/// How a sync job waits for its next run.
#[derive(Clone, Copy, Debug, PartialEq, Eq, Structural)]
pub enum WatchMode {
    /// Run when the configured interval has elapsed.
    Interval,
    /// Run when the source reports a change.
    Realtime,
}

impl Default for WatchMode {
    fn default() -> (r: Self)
        ensures
            r == WatchMode::Interval,
    {
        WatchMode::Interval
    }
}

/// How symbolic links and junctions in the source are treated.
#[derive(Clone, Copy, Debug, PartialEq, Eq, Structural)]
pub enum SymlinkMode {
    /// Do not follow links; skip them safely.
    Skip,
    /// Treat the link target as an ordinary file or folder.
    Follow,
    /// Recreate the link itself at the target.
    Recreate,
}

impl Default for SymlinkMode {
    fn default() -> (r: Self)
        ensures
            r == SymlinkMode::Skip,
    {
        SymlinkMode::Skip
    }
}

// ───────────────────────── log settings ─────────────────────────

/// Rolling log file settings. All three retention rules apply together.
#[derive(Clone, Debug)]
pub struct LogConfig {
    /// Whether log lines are written to a file at all.
    pub file_enabled: bool,
    /// Log files kept, the current one included.
    pub max_files: u32,
    /// Days a rolled file is kept; zero keeps files of any age.
    pub max_age_days: u32,
    /// Size in MB at which the file is rolled; zero never rolls by size.
    pub max_file_size_mb: u32,
}

impl Default for LogConfig {
    fn default() -> (r: Self)
        ensures
            r.file_enabled,
            r.max_files == 10,
            r.max_age_days == 30,
            r.max_file_size_mb == 5,
    {
        LogConfig {
            file_enabled: true,
            max_files: default_max_files(),
            max_age_days: default_max_age_days(),
            max_file_size_mb: default_max_file_size_mb(),
        }
    }
}

// ───────────────────────── sync jobs ─────────────────────────

/// One source folder → target folder synchronisation job.
#[derive(Clone, Debug)]
pub struct SyncJob {
    /// Stable identifier; list positions shift when jobs are added or removed.
    pub id: String,
    /// Name shown to the user; the source folder name is used when blank.
    pub name: String,
    pub source: String,
    pub target: String,
    /// Whether this job runs automatically.
    pub enabled: bool,
    /// Watch interval in seconds.
    pub interval_secs: u32,
    pub watch_mode: WatchMode,
    pub symlink_mode: SymlinkMode,
    /// Delete target entries that no longer exist in the source.
    pub mirror_deletes: bool,
    /// Also copy entries carrying the hidden or system attribute.
    pub include_hidden: bool,
    /// Relative-path patterns excluded from the job.
    pub exclude_patterns: Vec<String>,
    /// When the last run finished (Unix seconds); owned by the sync engine.
    pub last_run_unix: Option<u64>,
    /// Relative path an interrupted run resumes from; owned by the sync engine.
    pub resume_cursor: Option<String>,
}

/// Copy of an optional string.
pub fn clone_opt_string(s: &Option<String>) -> (r: Option<String>)
    ensures
        r == *s,
{
    match s {
        Some(v) => Some(v.clone()),
        None => None,
    }
}

impl SyncJob {
    /// A job with the given identifier and every other field at its default:
    /// enabled, 60 s interval, interval mode, links skipped, no mirror deletes,
    /// hidden files included, no patterns and no recorded progress.
    pub fn with_id(id: String) -> (r: SyncJob)
        ensures
            r.id == id,
            r.name@ == Seq::<char>::empty(),
            r.source@ == Seq::<char>::empty(),
            r.target@ == Seq::<char>::empty(),
            r.enabled,
            r.interval_secs == 60,
            r.watch_mode == WatchMode::Interval,
            r.symlink_mode == SymlinkMode::Skip,
            !r.mirror_deletes,
            r.include_hidden,
            r.exclude_patterns@.len() == 0,
            r.last_run_unix is None,
            r.resume_cursor is None,
    {
        SyncJob {
            id,
            name: String::new(),
            source: String::new(),
            target: String::new(),
            enabled: true,
            interval_secs: default_sync_interval_secs(),
            watch_mode: WatchMode::Interval,
            symlink_mode: SymlinkMode::Skip,
            mirror_deletes: false,
            include_hidden: true,
            exclude_patterns: Vec::new(),
            last_run_unix: None,
            resume_cursor: None,
        }
    }

    /// Gives a job loaded from an old configuration (empty id) the fresh id.
    pub fn ensure_id(&mut self, fresh_id: String)
        ensures
            *final(self) == with_id_ensured(*old(self), fresh_id),
            old(self).id@.len() == 0 ==> *final(self) == (SyncJob { id: fresh_id, ..*old(self) }),
            old(self).id@.len() != 0 ==> *final(self) == *old(self),
            fresh_id@.len() > 0 ==> final(self).id@.len() > 0,
    {
        if self.id.as_str().is_empty() {
            self.id = fresh_id;
        }
    }

    /// Name used in lists: the job name when it is not blank, else the source
    /// folder's name, else the source text itself.
    pub fn label(&self) -> (r: String)
        ensures
            r@ == job_label(self.name@, self.source@),
    {
        let name = chars_of(self.name.as_str());
        let t = trim_chars(name.as_slice());
        if t.len() > 0 {
            return self.name.clone();
        }
        let source = chars_of(self.source.as_str());
        match file_name(source.as_slice()) {
            Some(n) => string_from(n.as_slice()),
            None => self.source.clone(),
        }
    }
}

/// Label of a job with the given name and source path.
pub open spec fn job_label(name: Seq<char>, source: Seq<char>) -> Seq<char> {
    if trim(name).len() > 0 {
        name
    } else {
        match spec_file_name(source) {
            Some(n) => n,
            None => source,
        }
    }
}

// ───────────────────────── path file names ─────────────────────────

/// Path separators as Windows reads them.
pub open spec fn is_separator(c: char) -> bool {
    c == '/' || c == '\\'
}

pub open spec fn is_ascii_alpha(c: char) -> bool {
    ('a' <= c && c <= 'z') || ('A' <= c && c <= 'Z')
}

/// The pieces between separators, empty pieces included.
pub open spec fn split_segments(p: Seq<char>) -> Seq<Seq<char>>
    decreases p.len(),
{
    if p.len() == 0 {
        seq![Seq::empty()]
    } else if is_separator(p.last()) {
        split_segments(p.drop_last()).push(Seq::empty())
    } else {
        let s = split_segments(p.drop_last());
        s.update(s.len() - 1, s.last().push(p.last()))
    }
}

/// A piece that names something: not empty and not `.`.
pub open spec fn is_normal_segment(s: Seq<char>) -> bool {
    s.len() > 0 && s != seq!['.']
}

/// A separator of a path: `\`, and `/` too unless the path is verbatim.
pub open spec fn is_sep(c: char, verbatim: bool) -> bool {
    c == '\\' || (!verbatim && c == '/')
}

/// The position of the first separator at or after `i`, or the path's length.
pub open spec fn next_sep(p: Seq<char>, i: int, verbatim: bool) -> int
    decreases p.len() - i,
{
    if i < 0 || i >= p.len() {
        p.len() as int
    } else if is_sep(p[i], verbatim) {
        i
    } else {
        next_sep(p, i + 1, verbatim)
    }
}

/// The length of a path's Windows prefix and whether it is verbatim: a drive
/// `C:`; a share `\\server\share` (both names present); a device `\\.\name`;
/// or the verbatim forms `\\?\UNC\server\share`, `\\?\C:` and `\\?\name`,
/// after which only `\` separates. No prefix gives 0.
pub open spec fn path_prefix(p: Seq<char>) -> (int, bool) {
    if p.len() >= 2 && is_separator(p[0]) && is_separator(p[1]) {
        if p.len() >= 4 && p[0] == '\\' && p[1] == '\\' && p[2] == '?' && p[3] == '\\' {
            if p.len() >= 8 && p[4] == 'U' && p[5] == 'N' && p[6] == 'C' && is_separator(p[7]) {
                let s = next_sep(p, 8, true);
                if s == p.len() {
                    (s, true)
                } else if next_sep(p, s + 1, true) > s + 1 {
                    (next_sep(p, s + 1, true), true)
                } else {
                    (s, true)
                }
            } else if p.len() >= 6 && is_ascii_alpha(p[4]) && p[5] == ':' && (p.len() == 6 || is_separator(p[6])) {
                (6, true)
            } else {
                (next_sep(p, 4, true), true)
            }
        } else if p.len() >= 4 && p[2] == '.' && is_separator(p[3]) {
            (next_sep(p, 4, false), false)
        } else {
            let s = next_sep(p, 2, false);
            if s > 2 && s < p.len() && next_sep(p, s + 1, false) > s + 1 {
                (next_sep(p, s + 1, false), false)
            } else {
                (0, false)
            }
        }
    } else if p.len() >= 2 && is_ascii_alpha(p[0]) && p[1] == ':' {
        (2, false)
    } else {
        (0, false)
    }
}

/// The pieces between separators, empty pieces included.
pub open spec fn split_by(p: Seq<char>, verbatim: bool) -> Seq<Seq<char>>
    decreases p.len(),
{
    if p.len() == 0 {
        seq![Seq::empty()]
    } else if is_sep(p.last(), verbatim) {
        split_by(p.drop_last(), verbatim).push(Seq::empty())
    } else {
        let s = split_by(p.drop_last(), verbatim);
        s.update(s.len() - 1, s.last().push(p.last()))
    }
}

/// A piece that is a component: not empty, and not `.` unless the path is
/// verbatim (where `.` stands as it is).
pub open spec fn is_component(s: Seq<char>, verbatim: bool) -> bool {
    s.len() > 0 && (verbatim || s != seq!['.'])
}

/// The file name of the part of a path after its prefix: its last component,
/// none when there is none or it is `..` (or `.` in a verbatim path).
pub open spec fn last_name(q: Seq<char>, verbatim: bool) -> Option<Seq<char>> {
    let comps = split_by(q, verbatim).filter(|s: Seq<char>| is_component(s, verbatim));
    if comps.len() == 0 {
        None
    } else if comps.last() == seq!['.', '.'] || comps.last() == seq!['.'] {
        None
    } else {
        Some(comps.last())
    }
}

/// The last path component, as `Path::file_name` reports it under Windows rules:
/// the prefix (a drive, a share root, a device or a verbatim form) is no name.
pub open spec fn spec_file_name(p: Seq<char>) -> Option<Seq<char>> {
    let (n, verbatim) = path_prefix(p);
    last_name(p.subrange(n, p.len() as int), verbatim)
}

proof fn lemma_split_by_nonempty(p: Seq<char>, verbatim: bool)
    ensures
        split_by(p, verbatim).len() >= 1,
    decreases p.len(),
{
    if p.len() > 0 {
        lemma_split_by_nonempty(p.drop_last(), verbatim);
    }
}

fn find_sep(p: &[char], i: usize, verbatim: bool) -> (r: usize)
    ensures
        r == next_sep(p@, i as int, verbatim),
        i <= r <= p@.len() || (i > p@.len() && r == p@.len()),
{
    if i >= p.len() {
        return p.len();
    }
    let mut j: usize = i;
    while j < p.len() && !(p[j] == '\\' || (!verbatim && p[j] == '/'))
        invariant
            i <= j <= p@.len(),
            next_sep(p@, i as int, verbatim) == next_sep(p@, j as int, verbatim),
        decreases p@.len() - j,
    {
        j = j + 1;
    }
    j
}

fn is_alpha(c: char) -> (r: bool)
    ensures
        r == is_ascii_alpha(c),
{
    ('a' <= c && c <= 'z') || ('A' <= c && c <= 'Z')
}

fn is_slash(c: char) -> (r: bool)
    ensures
        r == is_separator(c),
{
    c == '/' || c == '\\'
}

/// The length of the path's prefix and whether it is verbatim, as [`path_prefix`] says.
fn prefix_of(p: &[char]) -> (r: (usize, bool))
    ensures
        r.0 as int == path_prefix(p@).0,
        r.1 == path_prefix(p@).1,
        r.0 <= p@.len(),
{
    let n = p.len();
    if n >= 2 && is_slash(p[0]) && is_slash(p[1]) {
        if n >= 4 && p[0] == '\\' && p[1] == '\\' && p[2] == '?' && p[3] == '\\' {
            if n >= 8 && p[4] == 'U' && p[5] == 'N' && p[6] == 'C' && is_slash(p[7]) {
                let s = find_sep(p, 8, true);
                if s == n {
                    (s, true)
                } else {
                    let t = find_sep(p, s + 1, true);
                    if t > s + 1 {
                        (t, true)
                    } else {
                        (s, true)
                    }
                }
            } else if n >= 6 && is_alpha(p[4]) && p[5] == ':' && (n == 6 || is_slash(p[6])) {
                (6, true)
            } else {
                (find_sep(p, 4, true), true)
            }
        } else if n >= 4 && p[2] == '.' && is_slash(p[3]) {
            (find_sep(p, 4, false), false)
        } else {
            let s = find_sep(p, 2, false);
            if s > 2 && s < n {
                let t = find_sep(p, s + 1, false);
                if t > s + 1 {
                    (t, false)
                } else {
                    (0, false)
                }
            } else {
                (0, false)
            }
        }
    } else if n >= 2 && is_alpha(p[0]) && p[1] == ':' {
        (2, false)
    } else {
        (0, false)
    }
}

proof fn lemma_split_segments_nonempty(p: Seq<char>)
    ensures
        split_segments(p).len() >= 1,
    decreases p.len(),
{
    if p.len() > 0 {
        lemma_split_segments_nonempty(p.drop_last());
    }
}

/// The last component of a path (`Path::file_name`, Windows rules).
pub fn file_name(p: &[char]) -> (r: Option<Vec<char>>)
    ensures
        match r {
            Some(v) => spec_file_name(p@) == Some(v@),
            None => spec_file_name(p@) is None,
        },
{
    let (start, verbatim) = prefix_of(p);
    let ghost q = p@.subrange(start as int, p@.len() as int);
    // Walk the characters keeping the current piece and the last component seen.
    let mut current: Vec<char> = Vec::new();
    let mut last: Option<Vec<char>> = None;
    let mut i: usize = start;
    let ghost pred = |s: Seq<char>| is_component(s, verbatim);
    while i < p.len()
        invariant
            start <= i <= p@.len(),
            q == p@.subrange(start as int, p@.len() as int),
            pred == (|s: Seq<char>| is_component(s, verbatim)),
            split_by(q.subrange(0, i - start), verbatim).len() >= 1,
            current@ == split_by(q.subrange(0, i - start), verbatim).last(),
            ({
                let done = split_by(q.subrange(0, i - start), verbatim).drop_last().filter(pred);
                match last {
                    Some(v) => done.len() > 0 && done.last() == v@,
                    None => done.len() == 0,
                }
            }),
        decreases p@.len() - i,
    {
        let ghost before = q.subrange(0, i - start);
        let ghost segs = split_by(before, verbatim);
        let c = p[i];
        let ghost next = q.subrange(0, i + 1 - start);
        proof {
            assert(next.drop_last() =~= before);
            assert(next.last() == c);
            lemma_split_by_nonempty(before, verbatim);
        }
        if c == '\\' || (!verbatim && c == '/') {
            // The current piece is complete.
            let dot = current.len() == 1 && current[0] == '.';
            proof {
                assert(split_by(next, verbatim) == segs.push(Seq::empty()));
                assert(split_by(next, verbatim).drop_last() =~= segs);
                assert(segs =~= segs.drop_last().push(segs.last()));
                segs.drop_last().lemma_filter_push(segs.last(), pred);
                assert(dot == (current@ == seq!['.'])) by {
                    if current@.len() == 1 && current@[0] == '.' {
                        assert(current@ =~= seq!['.']);
                    }
                }
            }
            if current.len() > 0 && (verbatim || !dot) {
                last = Some(current);
            }
            current = Vec::new();
        } else {
            current.push(c);
            proof {
                assert(split_by(next, verbatim) == segs.update(segs.len() - 1, segs.last().push(c)));
                assert(split_by(next, verbatim).drop_last() =~= segs.drop_last());
            }
        }
        i = i + 1;
    }
    proof {
        assert(q.subrange(0, i - start) =~= q);
        let segs = split_by(q, verbatim);
        lemma_split_by_nonempty(q, verbatim);
        assert(segs =~= segs.drop_last().push(segs.last()));
        segs.drop_last().lemma_filter_push(segs.last(), pred);
    }
    let dot = current.len() == 1 && current[0] == '.';
    proof {
        assert(dot == (current@ == seq!['.'])) by {
            if current@.len() == 1 && current@[0] == '.' {
                assert(current@ =~= seq!['.']);
            }
        }
    }
    let candidate = if current.len() > 0 && (verbatim || !dot) {
        Some(current)
    } else {
        last
    };
    match candidate {
        None => None,
        Some(v) => {
            let is_parent = v.len() == 2 && v[0] == '.' && v[1] == '.';
            let is_dot = v.len() == 1 && v[0] == '.';
            proof {
                assert(is_parent == (v@ == seq!['.', '.'])) by {
                    if v@.len() == 2 && v@[0] == '.' && v@[1] == '.' {
                        assert(v@ =~= seq!['.', '.']);
                    }
                }
                assert(is_dot == (v@ == seq!['.'])) by {
                    if v@.len() == 1 && v@[0] == '.' {
                        assert(v@ =~= seq!['.']);
                    }
                }
            }
            if is_parent || is_dot {
                None
            } else {
                Some(v)
            }
        },
    }
}

// ───────────────────────── job ids ─────────────────────────

/// Identifier text of a job created at `secs` as the `seq`-th job of the process.
pub open spec fn job_id_text(secs: nat, seq: nat) -> Seq<char> {
    hex(secs) + seq!['-'] + hex(seq)
}

/// `job` after [`SyncJob::ensure_id`] with `fresh`: the fresh id when it had none.
pub open spec fn with_id_ensured(job: SyncJob, fresh: String) -> SyncJob {
    if job.id@.len() == 0 {
        SyncJob { id: fresh, ..job }
    } else {
        job
    }
}

/// Giving ids is done once: after a job got a non-empty id, giving it an id
/// again (with any fresh id) changes nothing. The ids made by
/// [`JobIdGenerator::next_id`] are never empty.
pub proof fn lemma_ensure_id_once(job: SyncJob, first: String, second: String, secs: nat, seq: nat)
    requires
        first@.len() > 0,
    ensures
        with_id_ensured(with_id_ensured(job, first), second) == with_id_ensured(job, first),
        job_id_text(secs, seq).len() > 0,
{
}

/// Source of process-unique job identifiers: creation time and a sequence number,
/// both in hexadecimal.
pub struct JobIdGenerator {
    pub next_seq: u64,
}

impl JobIdGenerator {
    pub fn new() -> (r: JobIdGenerator)
        ensures
            r.next_seq == 0,
    {
        JobIdGenerator { next_seq: 0 }
    }

    /// A new identifier for a job created at `now_secs` (Unix seconds).
    pub fn next_id(&mut self, now_secs: u64) -> (r: String)
        requires
            old(self).next_seq < u64::MAX,
        ensures
            r@ == job_id_text(now_secs as nat, old(self).next_seq as nat),
            final(self).next_seq == old(self).next_seq + 1,
            r@.len() > 0,
    {
        let seq = self.next_seq;
        self.next_seq = seq + 1;
        let mut v: Vec<char> = Vec::new();
        push_hex(&mut v, now_secs);
        v.push('-');
        push_hex(&mut v, seq);
        string_from(v.as_slice())
    }
}

/// Value of a sequence of lower-case hexadecimal digits.
pub open spec fn hex_value(d: Seq<char>) -> nat
    decreases d.len(),
{
    if d.len() == 0 {
        0
    } else {
        hex_value(d.drop_last()) * 16 + (if d.last() <= '9' {
            ((d.last() as nat) - ('0' as nat)) as nat
        } else {
            ((d.last() as nat) - ('a' as nat) + 10) as nat
        })
    }
}

proof fn lemma_hex_value(n: nat)
    ensures
        hex_value(crate::text::hex(n)) == n,
        forall|i: int|
            0 <= i < crate::text::hex(n).len() ==> #[trigger] crate::text::hex(n)[i] != '-',
    decreases n,
{
    let h = crate::text::hex(n);
    let d = n % 16;
    let c = crate::text::hex_char(d);
    assert(c != '-');
    if d < 10 {
        assert(c <= '9');
        assert(((c as nat) - ('0' as nat)) as nat == d);
    } else {
        assert(!(c <= '9'));
        assert(((c as nat) - ('a' as nat) + 10) as nat == d);
    }
    if n >= 16 {
        lemma_hex_value(n / 16);
        assert(h.drop_last() =~= crate::text::hex(n / 16));
        assert(h.last() == c);
        assert(hex_value(h) == hex_value(crate::text::hex(n / 16)) * 16 + d);
        assert((n / 16) * 16 + n % 16 == n) by (nonlinear_arith);
        assert forall|i: int| 0 <= i < h.len() implies #[trigger] h[i] != '-' by {
            if i < h.len() - 1 {
                assert(h[i] == crate::text::hex(n / 16)[i]);
            }
        }
    } else {
        assert(h =~= seq![c]);
        assert(h.drop_last() =~= Seq::<char>::empty());
        assert(n % 16 == n);
        assert(hex_value(h.drop_last()) == 0);
        assert(h.last() == c);
        assert(hex_value(h) == hex_value(h.drop_last()) * 16 + d);
    }
}

/// Two identifiers made with different sequence numbers differ, whatever the times.
pub proof fn lemma_job_ids_distinct(secs1: nat, seq1: nat, secs2: nat, seq2: nat)
    requires
        seq1 != seq2,
    ensures
        job_id_text(secs1, seq1) != job_id_text(secs2, seq2),
{
    let a = job_id_text(secs1, seq1);
    let b = job_id_text(secs2, seq2);
    lemma_hex_value(secs1);
    lemma_hex_value(secs2);
    lemma_hex_value(seq1);
    lemma_hex_value(seq2);
    let h1 = crate::text::hex(secs1);
    let h2 = crate::text::hex(secs2);
    if a == b {
        // The first '-' sits right after the time digits, so both split alike.
        if h1.len() < h2.len() {
            assert(a[h1.len() as int] == '-');
            assert(b[h1.len() as int] == h2[h1.len() as int]);
        } else if h2.len() < h1.len() {
            assert(b[h2.len() as int] == '-');
            assert(a[h2.len() as int] == h1[h2.len() as int]);
        } else {
            assert(a.subrange(h1.len() as int + 1, a.len() as int) =~= crate::text::hex(seq1));
            assert(b.subrange(h2.len() as int + 1, b.len() as int) =~= crate::text::hex(seq2));
        }
    }
}

// ───────────────────────── engine progress ─────────────────────────

/// Index of the first job in `jobs` whose id is `id`.
pub open spec fn first_with_id(jobs: Seq<SyncJob>, id: Seq<char>) -> Option<int>
    decreases jobs.len(),
{
    if jobs.len() == 0 {
        None
    } else if jobs[0].id@ == id {
        Some(0)
    } else {
        match first_with_id(jobs.drop_first(), id) {
            Some(i) => Some(i + 1),
            None => None,
        }
    }
}

proof fn lemma_first_with_id(jobs: Seq<SyncJob>, id: Seq<char>, k: int)
    requires
        0 <= k <= jobs.len(),
        forall|j: int| 0 <= j < k ==> jobs[j].id@ != id,
    ensures
        k < jobs.len() && jobs[k].id@ == id ==> first_with_id(jobs, id) == Some(k),
        k == jobs.len() ==> first_with_id(jobs, id) is None,
    decreases k,
{
    if k > 0 {
        lemma_first_with_id(jobs.drop_first(), id, k - 1);
    }
}

/// Position of the first job with the given id.
pub(crate) fn find_job_index(jobs: &[SyncJob], id: &[char]) -> (r: Option<usize>)
    ensures
        match r {
            Some(k) => k < jobs@.len() && first_with_id(jobs@, id@) == Some(k as int),
            None => first_with_id(jobs@, id@) is None,
        },
{
    let mut j: usize = 0;
    while j < jobs.len()
        invariant
            j <= jobs@.len(),
            forall|t: int| 0 <= t < j ==> jobs@[t].id@ != id@,
        decreases jobs@.len() - j,
    {
        if chars_equal(chars_of(jobs[j].id.as_str()).as_slice(), id) {
            proof {
                lemma_first_with_id(jobs@, id@, j as int);
            }
            return Some(j);
        }
        j = j + 1;
    }
    proof {
        lemma_first_with_id(jobs@, id@, j as int);
    }
    None
}

/// `job` with the engine-owned progress taken from the stored copy, if any.
pub open spec fn with_stored_progress(job: SyncJob, stored: Seq<SyncJob>) -> SyncJob {
    match first_with_id(stored, job.id@) {
        Some(k) => SyncJob {
            last_run_unix: stored[k].last_run_unix,
            resume_cursor: stored[k].resume_cursor,
            ..job
        },
        None => job,
    }
}

/// Restores, in the UI's snapshot of the jobs, the progress the sync engine
/// recorded on disk (last run time and resume point), matched by job id.
pub fn carry_over_engine_progress(stored: &[SyncJob], jobs: &mut Vec<SyncJob>)
    ensures
        final(jobs)@.len() == old(jobs)@.len(),
        forall|i: int|
            0 <= i < old(jobs)@.len() ==> #[trigger] final(jobs)@[i] == with_stored_progress(
                old(jobs)@[i],
                stored@,
            ),
{
    let mut i: usize = 0;
    while i < jobs.len()
        invariant
            i <= jobs@.len(),
            jobs@.len() == old(jobs)@.len(),
            forall|k: int|
                0 <= k < i ==> #[trigger] jobs@[k] == with_stored_progress(old(jobs)@[k], stored@),
            forall|k: int| i <= k < jobs@.len() ==> #[trigger] jobs@[k] == old(jobs)@[k],
        decreases jobs@.len() - i,
    {
        let id = chars_of(jobs[i].id.as_str());
        let found = find_job_index(stored, id.as_slice());
        if let Some(k) = found {
            let run = stored[k].last_run_unix;
            let cursor = clone_opt_string(&stored[k].resume_cursor);
            jobs[i].last_run_unix = run;
            jobs[i].resume_cursor = cursor;
        }
        i = i + 1;
    }
}

// ───────────────────────── interval presets ─────────────────────────

/// Strictly increasing.
pub open spec fn strictly_increasing(s: Seq<u32>) -> bool {
    forall|i: int, j: int| 0 <= i < j < s.len() ==> s[i] < s[j]
}

/// The positive values of `s`, as a set.
pub open spec fn positive_values(s: Seq<u32>) -> Set<u32> {
    Set::new(|x: u32| s.contains(x) && x > 0)
}

/// A normalized preset list: the positive values of the input, ascending,
/// each once.
pub open spec fn is_normalized_from(r: Seq<u32>, input: Seq<u32>) -> bool {
    strictly_increasing(r) && r.to_set() == positive_values(input)
}

proof fn lemma_sorted_set_unique(a: Seq<u32>, b: Seq<u32>)
    requires
        strictly_increasing(a),
        strictly_increasing(b),
        a.to_set() == b.to_set(),
    ensures
        a == b,
    decreases a.len() + b.len(),
{
    if a.len() == 0 || b.len() == 0 {
        if a.len() > 0 {
            assert(a.to_set().contains(a[0]));
        }
        if b.len() > 0 {
            assert(b.to_set().contains(b[0]));
        }
        assert(a =~= b);
    } else {
        let x = a.last();
        let y = b.last();
        assert(a.to_set().contains(x));
        assert(b.to_set().contains(y));
        assert(b.contains(x));
        assert(a.contains(y));
        let i = choose|i: int| 0 <= i < b.len() && b[i] == x;
        let j = choose|j: int| 0 <= j < a.len() && a[j] == y;
        assert(x <= y);
        assert(y <= x);
        let a2 = a.drop_last();
        let b2 = b.drop_last();
        assert(a2.to_set() =~= b2.to_set()) by {
            assert forall|v: u32| a2.to_set().contains(v) <==> b2.to_set().contains(v) by {
                if a2.contains(v) {
                    let k = choose|k: int| 0 <= k < a2.len() && a2[k] == v;
                    assert(a[k] == v && v < x);
                    assert(b.to_set().contains(v));
                    let m = choose|m: int| 0 <= m < b.len() && b[m] == v;
                    assert(m < b.len() - 1);
                    assert(b2[m] == v);
                }
                if b2.contains(v) {
                    let k = choose|k: int| 0 <= k < b2.len() && b2[k] == v;
                    assert(b[k] == v && v < y);
                    assert(a.to_set().contains(v));
                    let m = choose|m: int| 0 <= m < a.len() && a[m] == v;
                    assert(m < a.len() - 1);
                    assert(a2[m] == v);
                }
            }
        }
        lemma_sorted_set_unique(a2, b2);
        assert(a =~= a2.push(x));
        assert(b =~= b2.push(y));
    }
}

/// A normalized preset list is determined by its input: any two lists normalized
/// from the same input are equal, and normalizing a normalized list gives it back.
pub proof fn lemma_normalized_presets_unique(a: Seq<u32>, b: Seq<u32>, input: Seq<u32>)
    requires
        is_normalized_from(a, input),
        is_normalized_from(b, input),
    ensures
        a == b,
        is_normalized_from(a, a),
{
    lemma_sorted_set_unique(a, b);
    assert(a.to_set() =~= positive_values(a)) by {
        assert forall|v: u32| a.to_set().contains(v) implies v > 0 by {
            assert(positive_values(input).contains(v));
        }
    }
}

/// Inserts `x` into a strictly increasing list unless it is already there.
fn insert_sorted_unique(out: &mut Vec<u32>, x: u32)
    requires
        strictly_increasing(old(out)@),
    ensures
        strictly_increasing(final(out)@),
        final(out)@.to_set() == old(out)@.to_set().insert(x),
{
    let ghost before = out@;
    let mut p: usize = 0;
    while p < out.len() && out[p] < x
        invariant
            p <= out@.len(),
            out@ == before,
            forall|t: int| 0 <= t < p ==> out@[t] < x,
        decreases out@.len() - p,
    {
        p = p + 1;
    }
    if p < out.len() && out[p] == x {
        assert(out@.to_set() =~= before.to_set().insert(x)) by {
            assert(before.to_set().contains(x)) by {
                assert(before[p as int] == x);
            }
        }
        return;
    }
    out.insert(p, x);
    proof {
        assert forall|a: int, b: int| 0 <= a < b < out@.len() implies out@[a] < out@[b] by {
            if b < p {
            } else if b == p {
            } else if a < p {
                assert(out@[b] == before[b - 1]);
                if a < b - 1 {
                }
            } else if a == p {
                assert(out@[b] == before[b - 1]);
                if p < before.len() {
                    assert(before[p as int] >= x);
                    if b - 1 > p {
                        assert(before[p as int] < before[b - 1]);
                    }
                }
            } else {
                assert(out@[a] == before[a - 1]);
                assert(out@[b] == before[b - 1]);
            }
        }
        assert forall|y: u32| #[trigger] out@.to_set().contains(y) == before.to_set().insert(
            x,
        ).contains(y) by {
            if out@.contains(y) {
                let k = choose|k: int| 0 <= k < out@.len() && out@[k] == y;
                if k < p {
                    assert(before[k] == y);
                } else if k > p {
                    assert(before[k - 1] == y);
                }
            }
            if before.contains(y) {
                let k = choose|k: int| 0 <= k < before.len() && before[k] == y;
                if k < p {
                    assert(out@[k] == y);
                } else {
                    assert(out@[k + 1] == y);
                }
            }
            if y == x {
                assert(out@[p as int] == y);
            }
        }
        assert(out@.to_set() =~= before.to_set().insert(x));
    }
}

/// Removes zero values and duplicates and sorts the presets in ascending order.
pub fn normalize_interval_presets(presets: &mut Vec<u32>)
    ensures
        is_normalized_from(final(presets)@, old(presets)@),
{
    let mut out: Vec<u32> = Vec::new();
    let mut i: usize = 0;
    proof {
        assert(out@.to_set() =~= positive_values(presets@.subrange(0, 0)));
    }
    while i < presets.len()
        invariant
            i <= presets@.len(),
            presets@ == old(presets)@,
            strictly_increasing(out@),
            out@.to_set() == positive_values(presets@.subrange(0, i as int)),
        decreases presets@.len() - i,
    {
        let x = presets[i];
        let ghost before = out@;
        if x > 0 {
            insert_sorted_unique(&mut out, x);
        }
        proof {
            let prev = presets@.subrange(0, i as int);
            let now = presets@.subrange(0, i + 1);
            assert(now =~= prev.push(x));
            assert forall|y: u32| #[trigger] positive_values(now).contains(y) == (
            positive_values(prev).contains(y) || (y == x && x > 0)) by {
                if now.contains(y) {
                    let k = choose|k: int| 0 <= k < now.len() && now[k] == y;
                    if k < i {
                        assert(prev[k] == y);
                    }
                }
                if prev.contains(y) {
                    let k = choose|k: int| 0 <= k < prev.len() && prev[k] == y;
                    assert(now[k] == y);
                }
                if y == x {
                    assert(now[i as int] == y);
                }
            }
            if x > 0 {
                assert(out@.to_set() =~= positive_values(now));
            } else {
                assert(out@.to_set() =~= positive_values(now));
            }
        }
        i = i + 1;
    }
    proof {
        assert(presets@.subrange(0, presets@.len() as int) =~= presets@);
    }
    *presets = out;
}

} // verus!

verus! {

/// The choices of an interval drop-down: the presets and the current value,
/// normalized (a current value outside the presets still shows).
pub fn interval_options(presets: &Vec<u32>, current: u32) -> (r: Vec<u32>)
    ensures
        is_normalized_from(r@, presets@.push(current)),
{
    let mut options: Vec<u32> = Vec::new();
    let mut i: usize = 0;
    while i < presets.len()
        invariant
            i <= presets@.len(),
            options@ == presets@.subrange(0, i as int),
        decreases presets@.len() - i,
    {
        options.push(presets[i]);
        i = i + 1;
        assert(options@ =~= presets@.subrange(0, i as int));
    }
    options.push(current);
    assert(options@ =~= presets@.push(current));
    normalize_interval_presets(&mut options);
    options
}

/// Where a drop-down of intervals stands: its options (the presets and
/// `current`, normalized) and the position of `current` among them, when it is
/// one of them (always, unless it is zero).
pub fn interval_select(presets: &Vec<u32>, current: u32) -> (r: (Vec<u32>, Option<usize>))
    ensures
        is_normalized_from(r.0@, presets@.push(current)),
        match r.1 {
            Some(i) => i < r.0@.len() && r.0@[i as int] == current,
            None => !r.0@.contains(current),
        },
        current > 0 ==> r.1 is Some,
{
    let options = interval_options(presets, current);
    let mut i: usize = 0;
    while i < options.len()
        invariant
            i <= options@.len(),
            is_normalized_from(options@, presets@.push(current)),
            forall|k: int| 0 <= k < i ==> options@[k] != current,
        decreases options@.len() - i,
    {
        if options[i] == current {
            return (options, Some(i));
        }
        i = i + 1;
    }
    proof {
        if current > 0 {
            assert(presets@.push(current)[presets@.len() as int] == current);
            assert(positive_values(presets@.push(current)).contains(current));
            assert(options@.to_set().contains(current));
            assert(options@.contains(current));
        }
        if options@.contains(current) {
            let k = choose|k: int| 0 <= k < options@.len() && options@[k] == current;
            assert(options@[k] != current);
        }
    }
    (options, None)
}

/// Takes the interval the user typed: adds it as a preset when it is not one yet
/// and chooses it. Returns its seconds and the drop-down with it selected, or why
/// the text is no interval (nothing changes then).
pub fn choose_new_interval(presets: &mut Vec<u32>, amount: &str, unit: crate::interval::TimeUnit) -> (r: Result<
    (u32, Vec<u32>, usize),
    String,
>)
    ensures
        match crate::interval::interval_secs(amount@, unit) {
            Err(e) => (r matches Err(m) && m@ == e) && final(presets)@ == old(presets)@,
            Ok(v) => (r matches Ok(t) && t.0 == v && t.2 < t.1@.len() && t.1@[t.2 as int] == t.0
                && is_normalized_from(t.1@, final(presets)@.push(t.0)))
                && (old(presets)@.contains(v as u32) ==> final(presets)@ == old(presets)@)
                && (!old(presets)@.contains(v as u32) ==> is_normalized_from(final(presets)@, old(presets)@.push(v as u32))),
        },
{
    match crate::interval::interval_to_secs(amount, unit) {
        Err(e) => Err(e),
        Ok(secs) => {
            let _ = add_interval_preset(presets, secs);
            let (options, selected) = interval_select(presets, secs);
            match selected {
                Some(i) => Ok((secs, options, i)),
                None => {
                    proof {
                        assert(false);
                    }
                    Err(String::new())
                },
            }
        },
    }
}

/// Adds an interval to the presets unless it is one already; returns whether it
/// was added. The list stays normalized.
pub fn add_interval_preset(presets: &mut Vec<u32>, secs: u32) -> (added: bool)
    ensures
        added == !old(presets)@.contains(secs),
        added ==> is_normalized_from(final(presets)@, old(presets)@.push(secs)),
        !added ==> final(presets)@ == old(presets)@,
{
    let mut i: usize = 0;
    while i < presets.len()
        invariant
            i <= presets@.len(),
            presets@ == old(presets)@,
            forall|k: int| 0 <= k < i ==> presets@[k] != secs,
        decreases presets@.len() - i,
    {
        if presets[i] == secs {
            return false;
        }
        i = i + 1;
    }
    presets.push(secs);
    normalize_interval_presets(presets);
    true
}

/// The predicate "is not `secs`".
pub open spec fn other_than(secs: u32) -> spec_fn(u32) -> bool {
    |x: u32| x != secs
}

/// Why a preset was not removed.
pub open spec fn msg_last_preset() -> Seq<char> {
    "마지막 프리셋은 삭제할 수 없습니다."@
}

/// Removes an interval from the presets, keeping at least one preset.
pub fn remove_interval_preset(presets: &mut Vec<u32>, secs: u32) -> (r: Result<(), String>)
    ensures
        old(presets)@.len() <= 1 <==> r is Err,
        r matches Err(e) ==> e@ == msg_last_preset() && final(presets)@ == old(presets)@,
        r is Ok ==> final(presets)@ == old(presets)@.filter(other_than(secs)),
{
    if presets.len() <= 1 {
        return Err(crate::text::owned("마지막 프리셋은 삭제할 수 없습니다."));
    }
    let mut kept: Vec<u32> = Vec::new();
    let mut i: usize = 0;
    while i < presets.len()
        invariant
            i <= presets@.len(),
            presets@ == old(presets)@,
            kept@ == presets@.subrange(0, i as int).filter(other_than(secs)),
        decreases presets@.len() - i,
    {
        let ghost pre = presets@.subrange(0, i as int);
        if presets[i] != secs {
            kept.push(presets[i]);
        }
        proof {
            let now = presets@.subrange(0, i + 1);
            assert(now.drop_last() =~= pre);
            assert(now =~= pre.push(presets@[i as int]));
            pre.lemma_filter_push(presets@[i as int], other_than(secs));
        }
        i = i + 1;
    }
    assert(presets@.subrange(0, presets@.len() as int) =~= presets@);
    *presets = kept;
    Ok(())
}

} // verus!
