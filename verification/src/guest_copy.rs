//! Copying guest entries out of a virtual disk: the checks before a copy starts,
//! the progress shown while it runs, and the summary, log lines and notice when
//! it ends.

use vstd::prelude::*;
use crate::guest::{GuestFileEntry, GuestSelection};
use crate::text::{
    chars_equal, chars_less, chars_of, decimal, digit_char, lemma_seq_less_total, lemma_seq_less_transitive, owned,
    push_decimal, push_str, seq_less, string_from, trim, trim_chars,
};

verus! {

// ───────────────────────── sizes ─────────────────────────

/// `num / den` rounded to the nearest integer, ties to the even one.
pub open spec fn round_half_even(num: nat, den: nat) -> nat
    recommends
        den > 0,
{
    let q = num / den;
    let r = num % den;
    if 2 * r > den {
        q + 1
    } else if 2 * r < den {
        q
    } else if q % 2 == 0 {
        q
    } else {
        q + 1
    }
}

/// `n / unit` with one decimal, rounded as `{:.1}` rounds an exact binary value.
pub open spec fn one_decimal(n: nat, unit: nat) -> Seq<char> {
    let tenths = round_half_even(10 * n, unit);
    decimal(tenths / 10) + seq!['.', digit_char(tenths % 10)]
}

/// A byte count for people: bytes below 1 KiB, KB below 1 MiB, else MB, with
/// one decimal.
pub open spec fn bytes_text(bytes: nat) -> Seq<char> {
    if bytes < 1024 {
        decimal(bytes) + " B"@
    } else if bytes < 1048576 {
        one_decimal(bytes, 1024) + " KB"@
    } else {
        one_decimal(bytes, 1048576) + " MB"@
    }
}

fn push_one_decimal(v: &mut Vec<char>, n: u64, unit: u64)
    requires
        unit == 1024 || unit == 1048576,
    ensures
        final(v)@ == old(v)@ + one_decimal(n as nat, unit as nat),
{
    let num: u128 = 10 * (n as u128);
    let den: u128 = unit as u128;
    let q: u128 = num / den;
    let r: u128 = num % den;
    let tenths: u128 = if 2 * r > den {
        q + 1
    } else if 2 * r < den {
        q
    } else if q % 2 == 0 {
        q
    } else {
        q + 1
    };
    assert(tenths == round_half_even(10 * n as nat, unit as nat));
    assert(tenths / 10 <= u64::MAX) by (nonlinear_arith)
        requires
            tenths <= q + 1,
            q == num / den,
            num == 10 * n,
            den >= 1024,
            n <= u64::MAX,
    ;
    push_decimal(v, (tenths / 10) as u64);
    v.push('.');
    let d = (tenths % 10) as u8;
    v.push((48u8 + d) as char);
    assert(v@ =~= old(v)@ + one_decimal(n as nat, unit as nat));
}

/// The size shown for a byte count.
pub fn format_bytes(bytes: u64) -> (r: String)
    ensures
        r@ == bytes_text(bytes as nat),
{
    let mut v: Vec<char> = Vec::new();
    if bytes < 1024 {
        push_decimal(&mut v, bytes);
        push_str(&mut v, " B");
    } else if bytes < 1024 * 1024 {
        push_one_decimal(&mut v, bytes, 1024);
        push_str(&mut v, " KB");
    } else {
        push_one_decimal(&mut v, bytes, 1024 * 1024);
        push_str(&mut v, " MB");
    }
    string_from(v.as_slice())
}

// ───────────────────────── reports ─────────────────────────

/// A guest entry that could not be copied.
#[derive(Clone, Debug)]
pub struct CopyIssue {
    pub kind: String,
    pub path: String,
    pub detail: String,
}

impl CopyIssue {
    /// Key used to silence repeated notices of the same issue.
    pub fn key(&self) -> (r: String)
        ensures
            r@ == self.kind@ + seq!['|'] + self.path@ + seq!['|'] + self.detail@,
    {
        let mut v: Vec<char> = Vec::new();
        push_str(&mut v, self.kind.as_str());
        v.push('|');
        push_str(&mut v, self.path.as_str());
        v.push('|');
        push_str(&mut v, self.detail.as_str());
        string_from(v.as_slice())
    }
}

/// What a copy has done so far.
#[derive(Clone, Debug)]
pub struct CopyReport {
    pub copied_files: u64,
    pub copied_bytes: u64,
    pub skipped_entries: u64,
    pub issues: Vec<CopyIssue>,
}

/// The progress shown while a copy runs.
#[derive(Clone, Debug)]
pub struct VirtualDiskCopyProgress {
    pub total_entries: usize,
    pub completed_entries: usize,
    pub current_path: String,
    pub copied_files: u64,
    pub copied_bytes: u64,
    pub skipped_entries: u64,
    pub failed_entries: u64,
    pub stopping: bool,
}

impl VirtualDiskCopyProgress {
    /// The progress of a copy of `total_entries` selected entries that has not
    /// begun.
    pub fn started(total_entries: usize) -> (r: VirtualDiskCopyProgress)
        ensures
            r.total_entries == total_entries,
            r.completed_entries == 0,
            r.current_path@.len() == 0,
            r.copied_files == 0 && r.copied_bytes == 0 && r.skipped_entries == 0,
            r.failed_entries == 0,
            !r.stopping,
    {
        VirtualDiskCopyProgress {
            total_entries,
            completed_entries: 0,
            current_path: string_from(Vec::new().as_slice()),
            copied_files: 0,
            copied_bytes: 0,
            skipped_entries: 0,
            failed_entries: 0,
            stopping: false,
        }
    }

    /// Takes in a progress report from the copying thread.
    pub fn update(&mut self, completed_entries: usize, total_entries: usize, current_path: String, report: &CopyReport)
        ensures
            final(self).completed_entries == completed_entries,
            final(self).total_entries == total_entries,
            final(self).current_path == current_path,
            final(self).copied_files == report.copied_files,
            final(self).copied_bytes == report.copied_bytes,
            final(self).skipped_entries == report.skipped_entries,
            final(self).failed_entries == report.issues@.len(),
            final(self).stopping == old(self).stopping,
    {
        self.completed_entries = completed_entries;
        self.total_entries = total_entries;
        self.current_path = current_path;
        self.copied_files = report.copied_files;
        self.copied_bytes = report.copied_bytes;
        self.skipped_entries = report.skipped_entries;
        self.failed_entries = report.issues.len() as u64;
    }
}

/// The last summary of a finished copy.
#[derive(Clone, Debug)]
pub struct VirtualDiskCopySummary {
    pub cancelled: bool,
    pub copied_files: u64,
    pub copied_bytes: u64,
    pub skipped_entries: u64,
    pub failed_entries: u64,
    pub issues: Vec<CopyIssue>,
    pub error: Option<String>,
}

/// The summary line of a finished copy.
pub open spec fn summary_line_text(s: VirtualDiskCopySummary) -> Seq<char> {
    match s.error {
        Some(e) => "복사하지 못했습니다: "@ + e@,
        None => (if s.cancelled {
            "중지됨"@
        } else {
            "완료"@
        }) + " · 파일 "@ + decimal(s.copied_files as nat) + "개 · "@ + bytes_text(
            s.copied_bytes as nat,
        ) + " · 건너뜀 "@ + decimal(s.skipped_entries as nat) + " · 실패 "@ + decimal(
            s.failed_entries as nat,
        ),
    }
}

impl VirtualDiskCopySummary {
    /// The summary of a copy that ended with `report`, or failed with `error`.
    pub fn from_report(cancelled: bool, report: CopyReport, error: Option<String>) -> (r: VirtualDiskCopySummary)
        ensures
            r.cancelled == cancelled,
            r.copied_files == report.copied_files,
            r.copied_bytes == report.copied_bytes,
            r.skipped_entries == report.skipped_entries,
            r.failed_entries == report.issues@.len(),
            r.issues == report.issues,
            r.error == error,
    {
        let failed = report.issues.len() as u64;
        VirtualDiskCopySummary {
            cancelled,
            copied_files: report.copied_files,
            copied_bytes: report.copied_bytes,
            skipped_entries: report.skipped_entries,
            failed_entries: failed,
            issues: report.issues,
            error,
        }
    }

    pub fn line(&self) -> (r: String)
        ensures
            r@ == summary_line_text(*self),
    {
        let mut v: Vec<char> = Vec::new();
        match &self.error {
            Some(e) => {
                push_str(&mut v, "복사하지 못했습니다: ");
                push_str(&mut v, e.as_str());
            },
            None => {
                if self.cancelled {
                    push_str(&mut v, "중지됨");
                } else {
                    push_str(&mut v, "완료");
                }
                push_str(&mut v, " · 파일 ");
                push_decimal(&mut v, self.copied_files);
                push_str(&mut v, "개 · ");
                let size = format_bytes(self.copied_bytes);
                push_str(&mut v, size.as_str());
                push_str(&mut v, " · 건너뜀 ");
                push_decimal(&mut v, self.skipped_entries);
                push_str(&mut v, " · 실패 ");
                push_decimal(&mut v, self.failed_entries);
            },
        }
        let r = string_from(v.as_slice());
        assert(r@ =~= summary_line_text(*self));
        r
    }
}

// ───────────────────────── starting a copy ─────────────────────────

/// Why a copy does not start; each is told to the user.
#[derive(Clone, Copy, Debug, PartialEq, Eq, Structural)]
pub enum CopyRefusal {
    AlreadyRunning,
    NoDisk,
    NoPartition,
    NoTarget,
    NothingSelected,
    PartitionMissing,
}

impl CopyRefusal {
    /// The notice shown for the refusal.
    pub fn message(&self) -> (r: &'static str)
        ensures
            r@ == match *self {
                CopyRefusal::AlreadyRunning => "이미 실행 중인 VDI 복사가 있습니다"@,
                CopyRefusal::NoDisk => "먼저 VDI와 NTFS 파티션을 선택하세요"@,
                CopyRefusal::NoPartition => "복사할 NTFS 파티션을 선택하세요"@,
                CopyRefusal::NoTarget => "복사 대상 폴더를 입력하거나 선택하세요"@,
                CopyRefusal::NothingSelected => "복사할 파일 또는 폴더를 선택하세요"@,
                CopyRefusal::PartitionMissing => "선택한 파티션 정보를 찾을 수 없습니다"@,
            },
    {
        match self {
            CopyRefusal::AlreadyRunning => "이미 실행 중인 VDI 복사가 있습니다",
            CopyRefusal::NoDisk => "먼저 VDI와 NTFS 파티션을 선택하세요",
            CopyRefusal::NoPartition => "복사할 NTFS 파티션을 선택하세요",
            CopyRefusal::NoTarget => "복사 대상 폴더를 입력하거나 선택하세요",
            CopyRefusal::NothingSelected => "복사할 파일 또는 폴더를 선택하세요",
            CopyRefusal::PartitionMissing => "선택한 파티션 정보를 찾을 수 없습니다",
        }
    }
}

/// The indices of the listed entries that are selected, in list order.
pub open spec fn selected_indices(entries: Seq<GuestFileEntry>, selected: Set<Seq<char>>) -> Seq<int>
    decreases entries.len(),
{
    if entries.len() == 0 {
        Seq::empty()
    } else {
        let rest = selected_indices(entries.drop_last(), selected);
        if selected.contains(entries.last().path.text@) {
            rest.push(entries.len() - 1)
        } else {
            rest
        }
    }
}

/// What a copy request decides: the refusal, checked in this order, or the
/// target folder (trimmed) and the selected entries to copy.
pub open spec fn copy_decision(
    running: bool,
    disk_open: bool,
    selected_partition: Option<usize>,
    partitions: nat,
    target_text: Seq<char>,
    entries: Seq<GuestFileEntry>,
    selected: Set<Seq<char>>,
) -> Result<(Seq<char>, Seq<int>), CopyRefusal> {
    if running {
        Err(CopyRefusal::AlreadyRunning)
    } else if !disk_open {
        Err(CopyRefusal::NoDisk)
    } else if selected_partition is None {
        Err(CopyRefusal::NoPartition)
    } else if trim(target_text).len() == 0 {
        Err(CopyRefusal::NoTarget)
    } else if selected_indices(entries, selected).len() == 0 {
        Err(CopyRefusal::NothingSelected)
    } else if selected_partition->0 >= partitions {
        Err(CopyRefusal::PartitionMissing)
    } else {
        Ok((trim(target_text), selected_indices(entries, selected)))
    }
}

/// Checks a copy request; on success returns the trimmed target folder and the
/// positions of the selected entries.
pub fn plan_guest_copy(
    running: bool,
    disk_open: bool,
    selected_partition: Option<usize>,
    partitions: usize,
    target_text: &str,
    entries: &Vec<GuestFileEntry>,
    selected: &GuestSelection,
) -> (r: Result<(String, Vec<usize>), CopyRefusal>)
    ensures
        match r {
            Ok((target, chosen)) => copy_decision(running, disk_open, selected_partition, partitions as nat, target_text@, entries@, selected.view_set())
                == Ok::<(Seq<char>, Seq<int>), CopyRefusal>((target@, chosen@.map_values(|i: usize| i as int))),
            Err(e) => copy_decision(running, disk_open, selected_partition, partitions as nat, target_text@, entries@, selected.view_set())
                == Err::<(Seq<char>, Seq<int>), CopyRefusal>(e),
        },
{
    if running {
        return Err(CopyRefusal::AlreadyRunning);
    }
    if !disk_open {
        return Err(CopyRefusal::NoDisk);
    }
    let part = match selected_partition {
        Some(p) => p,
        None => {
            return Err(CopyRefusal::NoPartition);
        },
    };
    let target = trim_chars(chars_of(target_text).as_slice());
    if target.len() == 0 {
        return Err(CopyRefusal::NoTarget);
    }
    let mut chosen: Vec<usize> = Vec::new();
    let mut i: usize = 0;
    while i < entries.len()
        invariant
            i <= entries@.len(),
            chosen@.map_values(|k: usize| k as int) == selected_indices(entries@.subrange(0, i as int), selected.view_set()),
        decreases entries@.len() - i,
    {
        let ghost before = chosen@;
        let pick = selected.contains(&entries[i].path);
        if pick {
            chosen.push(i);
        }
        proof {
            let pre = entries@.subrange(0, i + 1);
            assert(pre.drop_last() =~= entries@.subrange(0, i as int));
            assert(pre.last() == entries@[i as int]);
            assert(chosen@.map_values(|k: usize| k as int) =~= selected_indices(pre, selected.view_set()));
        }
        i = i + 1;
    }
    assert(entries@.subrange(0, entries@.len() as int) =~= entries@);
    if chosen.len() == 0 {
        return Err(CopyRefusal::NothingSelected);
    }
    if part >= partitions {
        return Err(CopyRefusal::PartitionMissing);
    }
    Ok((string_from(target.as_slice()), chosen))
}

/// The log line when a copy starts.
pub fn copy_started_log_line(count: usize, target: &str) -> (r: String)
    ensures
        r@ == "VDI 복사를 시작했습니다: "@ + decimal(count as nat) + "개 항목 → "@ + target@,
{
    let mut v: Vec<char> = Vec::new();
    push_str(&mut v, "VDI 복사를 시작했습니다: ");
    push_decimal(&mut v, count as u64);
    push_str(&mut v, "개 항목 → ");
    push_str(&mut v, target);
    string_from(v.as_slice())
}

// ───────────────────────── a finished copy ─────────────────────────

/// The notice shown when a copy ends.
#[derive(Clone, Copy, Debug, PartialEq, Eq, Structural)]
pub enum CopyNotice {
    /// Some entries failed (and not all of their issues are silenced), or the
    /// copy failed as a whole.
    Failed,
    Stopped,
    Completed,
}

/// The issues whose key is not silenced.
pub open spec fn unsilenced_count(issue_keys: Seq<Seq<char>>, silenced: Seq<Seq<char>>) -> nat
    decreases issue_keys.len(),
{
    if issue_keys.len() == 0 {
        0
    } else {
        unsilenced_count(issue_keys.drop_last(), silenced) + if silenced.contains(issue_keys.last()) {
            0nat
        } else {
            1nat
        }
    }
}

pub open spec fn issue_key_text(i: CopyIssue) -> Seq<char> {
    i.kind@ + seq!['|'] + i.path@ + seq!['|'] + i.detail@
}

/// Which notice a finished copy shows.
pub open spec fn copy_notice(s: VirtualDiskCopySummary, silenced: Seq<Seq<char>>) -> CopyNotice {
    let failed = s.failed_entries > 0 || s.error is Some;
    let loud = unsilenced_count(s.issues@.map_values(|i: CopyIssue| issue_key_text(i)), silenced);
    if failed && (s.error is Some || loud > 0) {
        CopyNotice::Failed
    } else if s.cancelled {
        CopyNotice::Stopped
    } else {
        CopyNotice::Completed
    }
}

/// Some key of `keys` is not silenced exactly when the count of unsilenced keys
/// is not zero.
proof fn lemma_unsilenced_count_positive(keys: Seq<Seq<char>>, silenced: Seq<Seq<char>>)
    ensures
        (unsilenced_count(keys, silenced) > 0) == (exists|k: int| 0 <= k < keys.len() && !silenced.contains(#[trigger] keys[k])),
    decreases keys.len(),
{
    if keys.len() > 0 {
        let rest = keys.drop_last();
        lemma_unsilenced_count_positive(rest, silenced);
        if exists|k: int| 0 <= k < rest.len() && !silenced.contains(#[trigger] rest[k]) {
            let k = choose|k: int| 0 <= k < rest.len() && !silenced.contains(#[trigger] rest[k]);
            assert(keys[k] == rest[k]);
        }
        if exists|k: int| 0 <= k < keys.len() && !silenced.contains(#[trigger] keys[k]) {
            let k = choose|k: int| 0 <= k < keys.len() && !silenced.contains(#[trigger] keys[k]);
            if k < rest.len() {
                assert(rest[k] == keys[k]);
            }
        }
    }
}

/// The notice of a finished copy: a copy that ended with an error is always
/// reported failed; one with failed entries is reported failed exactly when some
/// of its issues is not silenced; otherwise a stopped copy is reported stopped,
/// and any other completed.
pub proof fn lemma_copy_notice_rules(s: VirtualDiskCopySummary, silenced: Seq<Seq<char>>)
    ensures
        s.error is Some ==> copy_notice(s, silenced) == CopyNotice::Failed,
        (s.error is None && s.failed_entries > 0) ==> ((copy_notice(s, silenced) == CopyNotice::Failed) == exists|k: int|
            0 <= k < s.issues@.len() && !silenced.contains(#[trigger] issue_key_text(s.issues@[k]))),
        copy_notice(s, silenced) != CopyNotice::Failed ==> copy_notice(s, silenced) == (if s.cancelled {
            CopyNotice::Stopped
        } else {
            CopyNotice::Completed
        }),
        (s.error is None && s.failed_entries == 0) ==> copy_notice(s, silenced) != CopyNotice::Failed,
{
    let keys = s.issues@.map_values(|i: CopyIssue| issue_key_text(i));
    lemma_unsilenced_count_positive(keys, silenced);
    if exists|k: int| 0 <= k < s.issues@.len() && !silenced.contains(#[trigger] issue_key_text(s.issues@[k])) {
        let k = choose|k: int| 0 <= k < s.issues@.len() && !silenced.contains(#[trigger] issue_key_text(s.issues@[k]));
        assert(keys[k] == issue_key_text(s.issues@[k]));
    }
    if exists|k: int| 0 <= k < keys.len() && !silenced.contains(#[trigger] keys[k]) {
        let k = choose|k: int| 0 <= k < keys.len() && !silenced.contains(#[trigger] keys[k]);
        assert(keys[k] == issue_key_text(s.issues@[k]));
    }
}

impl CopyNotice {
    pub fn message(&self) -> (r: &'static str)
        ensures
            r@ == match *self {
                CopyNotice::Failed => "VDI 복사에 실패한 항목이 있습니다"@,
                CopyNotice::Stopped => "VDI 복사를 중지했습니다"@,
                CopyNotice::Completed => "VDI 복사를 완료했습니다"@,
            },
    {
        match self {
            CopyNotice::Failed => "VDI 복사에 실패한 항목이 있습니다",
            CopyNotice::Stopped => "VDI 복사를 중지했습니다",
            CopyNotice::Completed => "VDI 복사를 완료했습니다",
        }
    }
}

fn key_silenced(silenced: &Vec<String>, key: &Vec<char>) -> (r: bool)
    ensures
        r == silenced@.map_values(|s: String| s@).contains(key@),
{
    let ghost sv = silenced@.map_values(|s: String| s@);
    let mut i: usize = 0;
    while i < silenced.len()
        invariant
            i <= silenced@.len(),
            sv == silenced@.map_values(|s: String| s@),
            forall|t: int| 0 <= t < i ==> sv[t] != key@,
        decreases silenced@.len() - i,
    {
        if chars_equal(chars_of(silenced[i].as_str()).as_slice(), key.as_slice()) {
            assert(sv[i as int] == key@);
            return true;
        }
        i = i + 1;
    }
    false
}

/// Chooses the notice of a finished copy, as [`copy_notice`] says.
pub fn copy_finished_notice(summary: &VirtualDiskCopySummary, silenced: &Vec<String>) -> (r: CopyNotice)
    ensures
        r == copy_notice(*summary, silenced@.map_values(|s: String| s@)),
        summary.error is Some ==> r == CopyNotice::Failed,
{
    let ghost keys = summary.issues@.map_values(|i: CopyIssue| issue_key_text(i));
    let ghost sv = silenced@.map_values(|s: String| s@);
    let mut loud: usize = 0;
    let mut i: usize = 0;
    while i < summary.issues.len()
        invariant
            i <= summary.issues@.len(),
            keys == summary.issues@.map_values(|i: CopyIssue| issue_key_text(i)),
            sv == silenced@.map_values(|s: String| s@),
            loud == unsilenced_count(keys.subrange(0, i as int), sv),
            loud <= i,
        decreases summary.issues@.len() - i,
    {
        let key = chars_of(summary.issues[i].key().as_str());
        let quiet = key_silenced(silenced, &key);
        proof {
            let pre = keys.subrange(0, i + 1);
            assert(pre.drop_last() =~= keys.subrange(0, i as int));
            assert(pre.last() == key@);
        }
        if !quiet {
            loud = loud + 1;
        }
        i = i + 1;
    }
    assert(keys.subrange(0, keys.len() as int) =~= keys);
    let failed = summary.failed_entries > 0 || summary.error.is_some();
    proof {
        lemma_copy_notice_rules(*summary, sv);
    }
    if failed && (summary.error.is_some() || loud > 0) {
        CopyNotice::Failed
    } else if summary.cancelled {
        CopyNotice::Stopped
    } else {
        CopyNotice::Completed
    }
}

/// The log line of one issue: `[VDI][kind] path: detail`.
pub fn issue_log_line(issue: &CopyIssue) -> (r: String)
    ensures
        r@ == "[VDI]["@ + issue.kind@ + "] "@ + issue.path@ + ": "@ + issue.detail@,
{
    let mut v: Vec<char> = Vec::new();
    push_str(&mut v, "[VDI][");
    push_str(&mut v, issue.kind.as_str());
    push_str(&mut v, "] ");
    push_str(&mut v, issue.path.as_str());
    push_str(&mut v, ": ");
    push_str(&mut v, issue.detail.as_str());
    string_from(v.as_slice())
}

/// The summary's log line, `[VDI] ` and the summary, at ERROR when something
/// failed and INFO otherwise; returns (is error, line).
pub fn copy_summary_log_line(summary: &VirtualDiskCopySummary) -> (r: (bool, String))
    ensures
        r.0 == (summary.failed_entries > 0 || summary.error is Some),
        r.1@ == "[VDI] "@ + summary_line_text(*summary),
{
    let line = summary.line();
    let mut v: Vec<char> = Vec::new();
    push_str(&mut v, "[VDI] ");
    push_str(&mut v, line.as_str());
    (summary.failed_entries > 0 || summary.error.is_some(), string_from(v.as_slice()))
}

/// The log line and notice when the user silences, or un-silences, an issue key.
pub fn issue_silence_log_line(key: &str, silenced: bool) -> (r: String)
    ensures
        r@ == (if silenced {
            "VDI 오류 반복 알림을 억제했습니다: "@
        } else {
            "VDI 오류 반복 알림을 다시 표시합니다: "@
        }) + key@,
{
    let mut v: Vec<char> = Vec::new();
    if silenced {
        push_str(&mut v, "VDI 오류 반복 알림을 억제했습니다: ");
    } else {
        push_str(&mut v, "VDI 오류 반복 알림을 다시 표시합니다: ");
    }
    push_str(&mut v, key);
    string_from(v.as_slice())
}


/// The texts of a list of keys.
pub open spec fn key_texts(keys: Seq<String>) -> Seq<Seq<char>> {
    keys.map_values(|k: String| k@)
}

/// Keys in strictly increasing order (so each once), as a sorted set keeps them.
pub open spec fn strictly_sorted(keys: Seq<Seq<char>>) -> bool {
    forall|i: int, j: int| 0 <= i < j < keys.len() ==> seq_less(#[trigger] keys[i], #[trigger] keys[j])
}

/// Silences the issue key when it is not silenced, and un-silences it when it is.
/// The silenced keys stay sorted, each once; the result says whether the key is
/// now silenced.
pub fn toggle_issue_silence(keys: &mut Vec<String>, key: &str) -> (silenced: bool)
    requires
        strictly_sorted(key_texts(old(keys)@)),
    ensures
        strictly_sorted(key_texts(final(keys)@)),
        silenced == !key_texts(old(keys)@).contains(key@),
        key_texts(final(keys)@).to_set() == (if silenced {
            key_texts(old(keys)@).to_set().insert(key@)
        } else {
            key_texts(old(keys)@).to_set().remove(key@)
        }),
{
    let target = chars_of(key);
    let ghost ks = key_texts(keys@);
    let mut i: usize = 0;
    while i < keys.len()
        invariant
            i <= keys@.len(),
            keys@ == old(keys)@,
            ks == key_texts(keys@),
            target@ == key@,
            forall|k: int| 0 <= k < i ==> seq_less(#[trigger] ks[k], key@),
        ensures
            i <= keys@.len(),
            keys@ == old(keys)@,
            ks == key_texts(keys@),
            target@ == key@,
            forall|k: int| 0 <= k < i ==> seq_less(#[trigger] ks[k], key@),
            i < keys@.len() ==> !seq_less(ks[i as int], key@),
        decreases keys@.len() - i,
    {
        let text = chars_of(keys[i].as_str());
        if !chars_less(text.as_slice(), target.as_slice()) {
            break;
        }
        i = i + 1;
    }
    // `i` is where the key is, or belongs.
    let found = if i < keys.len() {
        let text = chars_of(keys[i].as_str());
        chars_equal(text.as_slice(), target.as_slice())
    } else {
        false
    };
    proof {
        assert forall|k: int| i <= k < ks.len() implies seq_less(key@, #[trigger] ks[k]) || ks[k] == key@ by {
            lemma_seq_less_total(ks[k], key@);
            if k > i {
                lemma_seq_less_total(ks[i as int], key@);
                assert(seq_less(ks[i as int], ks[k]));
                if ks[i as int] != key@ {
                    lemma_seq_less_transitive(key@, ks[i as int], ks[k]);
                }
            }
        }
    }
    if found {
        proof {
            assert(ks[i as int] == key@);
            assert forall|k: int| 0 <= k < ks.len() && k != i implies ks[k] != key@ by {
                lemma_seq_less_total(ks[k], key@);
                if k > i {
                    assert(seq_less(ks[i as int], ks[k]));
                }
            }
        }
        keys.remove(i);
        proof {
            let now = key_texts(keys@);
            assert(now =~= ks.remove(i as int));
            assert(ks.contains(key@));
            assert(now.to_set() =~= ks.to_set().remove(key@)) by {
                assert forall|x: Seq<char>| now.to_set().contains(x) <==> ks.to_set().remove(key@).contains(x) by {
                    if now.contains(x) {
                        let k = choose|k: int| 0 <= k < now.len() && now[k] == x;
                        if k < i {
                            assert(ks[k] == x);
                        } else {
                            assert(ks[k + 1] == x);
                        }
                    }
                    if ks.contains(x) && x != key@ {
                        let k = choose|k: int| 0 <= k < ks.len() && ks[k] == x;
                        if k < i {
                            assert(now[k] == x);
                        } else {
                            assert(k != i);
                            assert(now[k - 1] == x);
                        }
                    }
                }
            }
            assert forall|a: int, b: int| 0 <= a < b < now.len() implies seq_less(#[trigger] now[a], #[trigger] now[b]) by {
                let a2 = if a < i { a } else { a + 1 };
                let b2 = if b < i { b } else { b + 1 };
                assert(now[a] == ks[a2] && now[b] == ks[b2]);
            }
        }
        false
    } else {
        proof {
            assert forall|k: int| 0 <= k < ks.len() implies ks[k] != key@ by {
                lemma_seq_less_total(ks[k], key@);
                if k > i {
                    assert(seq_less(ks[i as int], ks[k]));
                    lemma_seq_less_total(ks[i as int], key@);
                }
            }
        }
        keys.insert(i, owned(key));
        proof {
            let now = key_texts(keys@);
            assert(now =~= ks.insert(i as int, key@));
            assert(!ks.contains(key@));
            assert(now.to_set() =~= ks.to_set().insert(key@)) by {
                assert forall|x: Seq<char>| now.to_set().contains(x) <==> ks.to_set().insert(key@).contains(x) by {
                    if now.contains(x) {
                        let k = choose|k: int| 0 <= k < now.len() && now[k] == x;
                        if k < i {
                            assert(ks[k] == x);
                        } else if k > i {
                            assert(ks[k - 1] == x);
                        }
                    }
                    if ks.contains(x) {
                        let k = choose|k: int| 0 <= k < ks.len() && ks[k] == x;
                        if k < i {
                            assert(now[k] == x);
                        } else {
                            assert(now[k + 1] == x);
                        }
                    }
                    if x == key@ {
                        assert(now[i as int] == x);
                    }
                }
            }
            assert forall|a: int, b: int| 0 <= a < b < now.len() implies seq_less(#[trigger] now[a], #[trigger] now[b]) by {
                if a < i && b < i {
                    assert(now[a] == ks[a] && now[b] == ks[b]);
                } else if a < i && b == i {
                    assert(now[a] == ks[a]);
                } else if a < i {
                    assert(now[a] == ks[a] && now[b] == ks[b - 1]);
                } else if a == i {
                    assert(now[b] == ks[b - 1]);
                } else {
                    assert(now[a] == ks[a - 1] && now[b] == ks[b - 1]);
                }
            }
        }
        true
    }
}

} // verus!
