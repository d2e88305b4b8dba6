//! The application's plain state: the ad-blocking targets, the log shown in the
//! log panel, the progress of the running sync job, the last result of each job,
//! and the lines and notices the events of the background threads produce.

use vstd::prelude::*;
use crate::sync::outcome::{failed_count, summary_text, SyncOutcome};
use crate::text::{
    chars_eq_ignore_ascii_case, chars_equal, chars_of, decimal, eq_ignore_ascii_case, owned,
    push_all, push_decimal, push_str, string_from,
};

verus! {

/// A program whose ad windows are blocked.
#[derive(Clone, Debug)]
pub struct TargetApp {
    pub process_name: String,
    pub display_name: String,
    pub enabled: bool,
    pub ad_window_class: String,
}

/// One line of the log panel.
#[derive(Clone, Debug)]
pub struct LogEntry {
    pub level: String,
    pub message: String,
}

/// What the dashboard and the ad-blocking panel show.
#[derive(Debug)]
pub struct AppState {
    pub is_active: bool,
    pub is_target_running: bool,
    pub targets: Vec<TargetApp>,
    pub blocked_count: u32,
    pub log_entries: Vec<LogEntry>,
}

/// The log panel keeps at most this many lines, dropping the oldest.
pub const MAX_UI_LOG_ENTRIES: usize = 2000;

impl Default for AppState {
    /// Blocking on, KakaoTalk as the one target, and a start line in the log.
    fn default() -> (r: AppState)
        ensures
            r.is_active,
            !r.is_target_running,
            r.blocked_count == 0,
            r.targets@.len() == 1,
            r.targets@[0].process_name@ == "KakaoTalk.exe"@,
            r.targets@[0].display_name@ == "KakaoTalk"@,
            r.targets@[0].enabled,
            r.targets@[0].ad_window_class@ == "Chrome_WidgetWin_1"@,
            r.log_entries@.len() == 1,
            r.log_entries@[0].level@ == "INFO"@,
            r.log_entries@[0].message@ == "앱을 시작했습니다."@,
    {
        let mut targets: Vec<TargetApp> = Vec::new();
        targets.push(
            TargetApp {
                process_name: owned("KakaoTalk.exe"),
                display_name: owned("KakaoTalk"),
                enabled: true,
                ad_window_class: owned("Chrome_WidgetWin_1"),
            },
        );
        let mut log_entries: Vec<LogEntry> = Vec::new();
        log_entries.push(LogEntry { level: owned("INFO"), message: owned("앱을 시작했습니다.") });
        AppState { is_active: true, is_target_running: false, targets, blocked_count: 0, log_entries }
    }
}

/// The display name of a process: its name without a trailing `.exe`.
pub open spec fn display_name_of(process_name: Seq<char>) -> Seq<char> {
    if process_name.len() >= 4 && process_name.subrange(
        process_name.len() - 4,
        process_name.len() as int,
    ) == ".exe"@ {
        process_name.subrange(0, process_name.len() - 4)
    } else {
        process_name
    }
}

/// Whether a target with this process name, compared without regard to ASCII
/// case, is registered.
pub open spec fn has_target(targets: Seq<TargetApp>, process_name: Seq<char>) -> bool {
    exists|i: int| 0 <= i < targets.len() && eq_ignore_ascii_case(targets[i].process_name@, process_name)
}

impl AppState {
    /// Adds a line to the log panel, dropping the oldest lines beyond
    /// [`MAX_UI_LOG_ENTRIES`].
    pub fn push_log(&mut self, level: &str, message: String)
        ensures
            final(self).log_entries@.len() == (if old(self).log_entries@.len() + 1 > MAX_UI_LOG_ENTRIES {
                MAX_UI_LOG_ENTRIES as int
            } else {
                old(self).log_entries@.len() + 1 as int
            }),
            final(self).log_entries@.last().level@ == level@,
            final(self).log_entries@.last().message@ == message@,
            final(self).log_entries@.drop_last() == crate::sync::failures::keep_last(
                old(self).log_entries@,
                (MAX_UI_LOG_ENTRIES - 1) as nat,
            ),
            final(self).targets == old(self).targets,
            final(self).blocked_count == old(self).blocked_count,
            final(self).is_active == old(self).is_active,
            final(self).is_target_running == old(self).is_target_running,
    {
        let ghost before = self.log_entries@;
        self.log_entries.push(LogEntry { level: owned(level), message });
        let ghost pushed = self.log_entries@;
        crate::sync::failures::drop_oldest(&mut self.log_entries, MAX_UI_LOG_ENTRIES);
        proof {
            let k = crate::sync::failures::keep_last(before, (MAX_UI_LOG_ENTRIES - 1) as nat);
            assert(self.log_entries@.drop_last() =~= k);
        }
    }

    /// Registers a program as a target, unless one with the same name (ASCII case
    /// aside) is registered; returns whether it was added. A new target is enabled,
    /// shown without `.exe`, and finds ad windows automatically.
    pub fn add_target_process(&mut self, process_name: &str) -> (added: bool)
        ensures
            added == !has_target(old(self).targets@, process_name@),
            added ==> final(self).targets@.len() == old(self).targets@.len() + 1
                && final(self).targets@.drop_last() == old(self).targets@
                && final(self).targets@.last().process_name@ == process_name@
                && final(self).targets@.last().display_name@ == display_name_of(process_name@)
                && final(self).targets@.last().enabled
                && final(self).targets@.last().ad_window_class@ == "auto:webview"@,
            !added ==> final(self).targets == old(self).targets,
            final(self).log_entries == old(self).log_entries,
    {
        let name = chars_of(process_name);
        let mut i: usize = 0;
        while i < self.targets.len()
            invariant
                i <= self.targets@.len(),
                name@ == process_name@,
                forall|t: int| 0 <= t < i ==> !eq_ignore_ascii_case(self.targets@[t].process_name@, process_name@),
            decreases self.targets@.len() - i,
        {
            let other = chars_of(self.targets[i].process_name.as_str());
            if chars_eq_ignore_ascii_case(other.as_slice(), name.as_slice()) {
                return false;
            }
            i = i + 1;
        }
        let n = name.len();
        let strip = n >= 4 && name[n - 4] == '.' && name[n - 3] == 'e' && name[n - 2] == 'x'
            && name[n - 1] == 'e';
        let mut display: Vec<char> = Vec::new();
        let keep = if strip {
            n - 4
        } else {
            n
        };
        let mut j: usize = 0;
        while j < keep
            invariant
                j <= keep <= name@.len(),
                display@ == name@.subrange(0, j as int),
            decreases keep - j,
        {
            display.push(name[j]);
            j = j + 1;
            assert(display@ =~= name@.subrange(0, j as int));
        }
        proof {
            reveal_strlit(".exe");
            if n >= 4 {
                let tail = name@.subrange(n - 4, n as int);
                let ext = ".exe"@;
                assert(ext.len() == 4 && ext[0] == '.' && ext[1] == 'e' && ext[2] == 'x' && ext[3] == 'e');
                assert(tail[0] == name@[n - 4] && tail[1] == name@[n - 3] && tail[2] == name@[n - 2] && tail[3] == name@[n - 1]);
                if strip {
                    assert(tail =~= ext);
                }
                if tail =~= ext {
                    assert(tail[0] == ext[0] && tail[1] == ext[1] && tail[2] == ext[2] && tail[3] == ext[3]);
                }
                assert(strip == (tail =~= ext));
            }
            assert(display@ =~= display_name_of(process_name@));
        }
        let ghost before = self.targets@;
        self.targets.push(
            TargetApp {
                process_name: owned(process_name),
                display_name: string_from(display.as_slice()),
                enabled: true,
                ad_window_class: owned("auto:webview"),
            },
        );
        assert(self.targets@.drop_last() =~= before);
        true
    }
}

/// The progress of the sync job that is running.
#[derive(Clone, Debug)]
pub struct SyncRunning {
    pub id: String,
    pub label: String,
    /// The file last reported (relative to the source folder).
    pub current_path: String,
    pub copied: usize,
    pub skipped: usize,
    pub failed: usize,
    /// A stop was asked for and the run has not ended yet.
    pub stopping: bool,
}

/// The status bar shows at most this many characters of the current path.
pub const MAX_PATH_CHARS: usize = 72;

/// The path shown in the status bar: a placeholder while no file was reported,
/// the path itself when short enough, else `…` and its last characters, so that the
/// file name stays visible.
pub open spec fn shown_path(p: Seq<char>) -> Seq<char> {
    if p.len() == 0 {
        "폴더를 검사하는 중…"@
    } else if p.len() <= MAX_PATH_CHARS {
        p
    } else {
        seq!['…'] + p.subrange(p.len() - (MAX_PATH_CHARS - 1), p.len() as int)
    }
}

pub open spec fn counters_text(copied: nat, skipped: nat, failed: nat) -> Seq<char> {
    "복사 "@ + decimal(copied) + " · 건너뜀 "@ + decimal(skipped) + " · 실패 "@ + decimal(failed)
}

impl SyncRunning {
    /// The counters in the status bar.
    pub fn counters(&self) -> (r: String)
        ensures
            r@ == counters_text(self.copied as nat, self.skipped as nat, self.failed as nat),
    {
        let mut v: Vec<char> = Vec::new();
        push_str(&mut v, "복사 ");
        push_decimal(&mut v, self.copied as u64);
        push_str(&mut v, " · 건너뜀 ");
        push_decimal(&mut v, self.skipped as u64);
        push_str(&mut v, " · 실패 ");
        push_decimal(&mut v, self.failed as u64);
        string_from(v.as_slice())
    }

    /// The current path for the status bar, as [`shown_path`] says.
    pub fn display_path(&self) -> (r: String)
        ensures
            r@ == shown_path(self.current_path@),
    {
        let chars = chars_of(self.current_path.as_str());
        if chars.len() == 0 {
            return owned("폴더를 검사하는 중…");
        }
        if chars.len() <= MAX_PATH_CHARS {
            return string_from(chars.as_slice());
        }
        let mut v: Vec<char> = Vec::new();
        v.push('…');
        let start = chars.len() - (MAX_PATH_CHARS - 1);
        let mut i = start;
        while i < chars.len()
            invariant
                start <= i <= chars@.len(),
                v@ == seq!['…'] + chars@.subrange(start as int, i as int),
            decreases chars@.len() - i,
        {
            v.push(chars[i]);
            i = i + 1;
            assert(v@ =~= seq!['…'] + chars@.subrange(start as int, i as int));
        }
        string_from(v.as_slice())
    }
}

/// The last result of one sync job.
#[derive(Clone, Debug)]
pub struct SyncJobStatus {
    pub last_run: Option<String>,
    pub summary: String,
    pub failed: bool,
}

/// The job list's line for a job.
pub open spec fn status_line(last_run: Option<Seq<char>>, summary: Seq<char>) -> Seq<char> {
    match last_run {
        Some(time) => "최근 실행 "@ + time + " — "@ + summary,
        None => if summary.len() > 0 {
            summary
        } else {
            "아직 실행되지 않았습니다."@
        },
    }
}

/// The summary of a run asked for and not finished yet.
pub open spec fn requested_summary() -> Seq<char> {
    "실행 요청됨 — 결과를 기다리는 중입니다."@
}

impl SyncJobStatus {
    /// The status of a job that never ran.
    pub fn new() -> (r: SyncJobStatus)
        ensures
            r.last_run is None,
            r.summary@.len() == 0,
            !r.failed,
    {
        SyncJobStatus { last_run: None, summary: string_from(Vec::new().as_slice()), failed: false }
    }

    /// The status of a job whose run was asked for and has not finished.
    pub fn requested() -> (r: SyncJobStatus)
        ensures
            r.last_run is None,
            r.summary@ == requested_summary(),
            !r.failed,
    {
        SyncJobStatus { last_run: None, summary: owned("실행 요청됨 — 결과를 기다리는 중입니다."), failed: false }
    }

    /// The status after a run that finished at `time`.
    pub fn finished(time: String, outcome: &SyncOutcome) -> (r: SyncJobStatus)
        requires
            outcome.failures@.len() + outcome.truncated_failures <= u64::MAX,
        ensures
            r.last_run == Some(time),
            r.summary@ == summary_text(
                outcome.copied as nat,
                outcome.skipped as nat,
                outcome.deleted as nat,
                failed_count(*outcome),
                outcome.resumed,
                outcome.cancelled,
            ),
            r.failed == (outcome.failures@.len() > 0 || outcome.truncated_failures > 0),
    {
        SyncJobStatus { last_run: Some(time), summary: outcome.summary(), failed: outcome.has_failures() }
    }

    /// The job list's line, as [`status_line`] says.
    pub fn line(&self) -> (r: String)
        ensures
            r@ == status_line(
                match self.last_run {
                    Some(t) => Some(t@),
                    None => None,
                },
                self.summary@,
            ),
    {
        match &self.last_run {
            Some(time) => {
                let mut v: Vec<char> = Vec::new();
                push_str(&mut v, "최근 실행 ");
                push_str(&mut v, time.as_str());
                push_str(&mut v, " — ");
                push_str(&mut v, self.summary.as_str());
                string_from(v.as_slice())
            },
            None => {
                if !self.summary.as_str().is_empty() {
                    owned(self.summary.as_str())
                } else {
                    owned("아직 실행되지 않았습니다.")
                }
            },
        }
    }
}

/// "true" or "false", as Rust displays a `bool`.
pub open spec fn bool_text(b: bool) -> Seq<char> {
    if b {
        "true"@
    } else {
        "false"@
    }
}

impl AppState {
    /// An ad window was hidden: counted (the count stops at its maximum) and logged.
    pub fn record_ad_blocked(&mut self)
        ensures
            final(self).blocked_count == (if old(self).blocked_count < u32::MAX {
                old(self).blocked_count + 1
            } else {
                old(self).blocked_count as int
            }),
            final(self).log_entries@.last().level@ == "SUCCESS"@,
            final(self).log_entries@.last().message@ == "광고 창을 감지하여 숨겼습니다."@,
            final(self).targets == old(self).targets,
    {
        if self.blocked_count < u32::MAX {
            self.blocked_count = self.blocked_count + 1;
        }
        self.push_log("SUCCESS", owned("광고 창을 감지하여 숨겼습니다."));
    }

    /// Whether a target program runs, as the scanner last saw it.
    pub fn set_target_running(&mut self, running: bool)
        ensures
            final(self).is_target_running == running,
            final(self).log_entries@.last().level@ == "INFO"@,
            final(self).log_entries@.last().message@ == (if running {
                "타겟 상태: 실행 중"@
            } else {
                "타겟 상태: 미실행"@
            }),
            final(self).targets == old(self).targets,
    {
        self.is_target_running = running;
        let message = if running {
            owned("타겟 상태: 실행 중")
        } else {
            owned("타겟 상태: 미실행")
        };
        self.push_log("INFO", message);
    }

    /// Ad blocking switched on or off.
    pub fn set_active(&mut self, enabled: bool)
        ensures
            final(self).is_active == enabled,
            final(self).log_entries@.last().level@ == "INFO"@,
            final(self).log_entries@.last().message@ == (if enabled {
                "광고 차단을 켰습니다."@
            } else {
                "광고 차단을 껐습니다."@
            }),
            final(self).targets == old(self).targets,
    {
        self.is_active = enabled;
        let message = if enabled {
            owned("광고 차단을 켰습니다.")
        } else {
            owned("광고 차단을 껐습니다.")
        };
        self.push_log("INFO", message);
    }

    /// Enables or disables the target at `index`; an index out of range changes
    /// nothing. Returns whether a target changed.
    pub fn set_target_enabled(&mut self, index: usize, enabled: bool) -> (changed: bool)
        ensures
            changed == (index < old(self).targets@.len()),
            changed ==> final(self).targets@ == old(self).targets@.update(
                index as int,
                TargetApp { enabled, ..old(self).targets@[index as int] },
            ) && final(self).log_entries@.last().level@ == "INFO"@
                && final(self).log_entries@.last().message@ == old(self).targets@[index as int].process_name@
                + " 활성 상태 변경: "@ + bool_text(enabled),
            !changed ==> final(self).targets == old(self).targets && final(self).log_entries
                == old(self).log_entries,
    {
        if index >= self.targets.len() {
            return false;
        }
        let ghost before = self.targets@;
        self.targets[index].enabled = enabled;
        assert(self.targets@ =~= before.update(index as int, TargetApp { enabled, ..before[index as int] }));
        let mut v: Vec<char> = Vec::new();
        push_str(&mut v, self.targets[index].process_name.as_str());
        push_str(&mut v, " 활성 상태 변경: ");
        if enabled {
            push_str(&mut v, "true");
        } else {
            push_str(&mut v, "false");
        }
        self.push_log("INFO", string_from(v.as_slice()));
        true
    }

    /// Removes the target at `index`; an index out of range changes nothing.
    /// Returns whether a target was removed.
    pub fn remove_target(&mut self, index: usize) -> (removed: bool)
        ensures
            removed == (index < old(self).targets@.len()),
            removed ==> final(self).targets@ == old(self).targets@.remove(index as int)
                && final(self).log_entries@.last().message@ == "타겟을 삭제했습니다: "@
                + old(self).targets@[index as int].process_name@,
            !removed ==> final(self).targets == old(self).targets && final(self).log_entries
                == old(self).log_entries,
    {
        if index >= self.targets.len() {
            return false;
        }
        let gone = self.targets.remove(index);
        let mut v: Vec<char> = Vec::new();
        push_str(&mut v, "타겟을 삭제했습니다: ");
        push_str(&mut v, gone.process_name.as_str());
        self.push_log("INFO", string_from(v.as_slice()));
        true
    }
}

/// The error line a finished run leaves in the log: one line for all its new
/// failures, with the count listed and the count left out of the list.
pub open spec fn failure_summary_line(label: Seq<char>, recorded: nat, truncated: nat) -> Option<Seq<char>> {
    if recorded == 0 && truncated == 0 {
        None
    } else {
        Some("["@ + label + "] 복사하지 못한 항목 "@ + decimal(recorded) + "건을 실패 목록에 기록했습니다."@
            + if truncated > 0 {
            " 실패 항목이 많아 "@ + decimal(truncated) + "건은 목록에서 생략했습니다."@
        } else {
            Seq::empty()
        })
    }
}

/// Builds the error line of a finished run, as [`failure_summary_line`] says.
pub fn sync_failure_log_line(label: &str, recorded: usize, truncated: usize) -> (r: Option<String>)
    ensures
        match r {
            Some(line) => failure_summary_line(label@, recorded as nat, truncated as nat) == Some(line@),
            None => failure_summary_line(label@, recorded as nat, truncated as nat) is None,
        },
{
    if recorded == 0 && truncated == 0 {
        return None;
    }
    let mut v: Vec<char> = Vec::new();
    push_str(&mut v, "[");
    push_str(&mut v, label);
    push_str(&mut v, "] 복사하지 못한 항목 ");
    push_decimal(&mut v, recorded as u64);
    push_str(&mut v, "건을 실패 목록에 기록했습니다.");
    if truncated > 0 {
        push_str(&mut v, " 실패 항목이 많아 ");
        push_decimal(&mut v, truncated as u64);
        push_str(&mut v, "건은 목록에서 생략했습니다.");
    }
    Some(string_from(v.as_slice()))
}

/// The notice shown when a run met new failures the user has not silenced.
pub open spec fn failure_notice(label: Seq<char>, count: nat) -> Seq<char> {
    "'"@ + label + "' 동기화 중 "@ + decimal(count)
        + "건을 복사하지 못했습니다. 파일 동기화 패널에서 사유를 확인하세요."@
}

pub fn sync_failure_notice(label: &str, count: usize) -> (r: String)
    ensures
        r@ == failure_notice(label@, count as nat),
{
    let mut v: Vec<char> = Vec::new();
    push_str(&mut v, "'");
    push_str(&mut v, label);
    push_str(&mut v, "' 동기화 중 ");
    push_decimal(&mut v, count as u64);
    push_str(&mut v, "건을 복사하지 못했습니다. 파일 동기화 패널에서 사유를 확인하세요.");
    string_from(v.as_slice())
}

/// The line a run that changed files leaves in the log.
pub fn sync_changes_log_line(label: &str, outcome: &SyncOutcome) -> (r: Option<String>)
    requires
        outcome.failures@.len() + outcome.truncated_failures <= u64::MAX,
    ensures
        r is Some <==> (outcome.copied > 0 || outcome.deleted > 0),
        r matches Some(line) ==> line@ == "["@ + label@ + "] "@ + summary_text(
            outcome.copied as nat,
            outcome.skipped as nat,
            outcome.deleted as nat,
            failed_count(*outcome),
            outcome.resumed,
            outcome.cancelled,
        ),
{
    if outcome.copied > 0 || outcome.deleted > 0 {
        let mut v: Vec<char> = Vec::new();
        push_str(&mut v, "[");
        push_str(&mut v, label);
        push_str(&mut v, "] ");
        let s = outcome.summary();
        push_str(&mut v, s.as_str());
        Some(string_from(v.as_slice()))
    } else {
        None
    }
}

/// Adds `name` to the list when missing, removes it when present (the favourite
/// services).
pub fn toggle_name(names: &mut Vec<String>, name: &str)
    ensures
        (exists|i: int| 0 <= i < old(names)@.len() && old(names)@[i]@ == name@) ==> exists|i: int|
            0 <= i < old(names)@.len() && old(names)@[i]@ == name@ && (forall|k: int|
                0 <= k < i ==> old(names)@[k]@ != name@) && final(names)@ == old(names)@.remove(i),
        !(exists|i: int| 0 <= i < old(names)@.len() && old(names)@[i]@ == name@) ==> final(names)@.len()
            == old(names)@.len() + 1 && final(names)@.last()@ == name@ && final(names)@.drop_last()
            == old(names)@,
{
    let target = chars_of(name);
    let mut i: usize = 0;
    while i < names.len()
        invariant
            i <= names@.len(),
            names@ == old(names)@,
            target@ == name@,
            forall|t: int| 0 <= t < i ==> names@[t]@ != name@,
        decreases names@.len() - i,
    {
        let other = chars_of(names[i].as_str());
        if chars_equal(other.as_slice(), target.as_slice()) {
            names.remove(i);
            return;
        }
        i = i + 1;
    }
    let ghost before = names@;
    names.push(owned(name));
    assert(names@.drop_last() =~= before);
}

/// Whether `name` is in the list.
pub fn contains_name(names: &Vec<String>, name: &str) -> (r: bool)
    ensures
        r == exists|i: int| 0 <= i < names@.len() && names@[i]@ == name@,
{
    let target = chars_of(name);
    let mut i: usize = 0;
    while i < names.len()
        invariant
            i <= names@.len(),
            target@ == name@,
            forall|t: int| 0 <= t < i ==> names@[t]@ != name@,
        decreases names@.len() - i,
    {
        let other = chars_of(names[i].as_str());
        if chars_equal(other.as_slice(), target.as_slice()) {
            return true;
        }
        i = i + 1;
    }
    false
}

/// The panels of the main window.
#[derive(Clone, Copy, Debug, PartialEq, Eq, Structural)]
pub enum ActivePanel {
    Dashboard,
    AdBlock,
    FileSync,
    Services,
    AutoStart,
    Logs,
    Settings,
}

/// Which services the service list shows.
#[derive(Clone, Copy, Debug, PartialEq, Eq, Structural)]
pub enum ServiceFilter {
    All,
    Running,
    Stopped,
    Favorites,
}

impl Default for ServiceFilter {
    fn default() -> (r: ServiceFilter)
        ensures
            r == ServiceFilter::All,
    {
        ServiceFilter::All
    }
}


/// A log line as (level, message) texts.
pub open spec fn entry_view(e: LogEntry) -> (Seq<char>, Seq<char>) {
    (e.level@, e.message@)
}

/// The log lines a finished run leaves: the summary when it changed files, then
/// one error line for the failures it newly listed (`recorded`) and those left
/// out of its list.
pub open spec fn finish_lines(label: Seq<char>, outcome: SyncOutcome, recorded: nat) -> Seq<(Seq<char>, Seq<char>)> {
    (if outcome.copied > 0 || outcome.deleted > 0 {
        seq![("INFO"@, "["@ + label + "] "@ + summary_text(
            outcome.copied as nat,
            outcome.skipped as nat,
            outcome.deleted as nat,
            failed_count(outcome),
            outcome.resumed,
            outcome.cancelled,
        ))]
    } else {
        Seq::empty()
    }) + match failure_summary_line(label, recorded, outcome.truncated_failures as nat) {
        Some(line) => seq![("ERROR"@, line)],
        None => Seq::empty(),
    }
}

/// What the panel does with a finished run, besides its status line.
pub struct RunReport {
    /// Lines for the log, in order.
    pub lines: Vec<LogEntry>,
    /// The warning to show, when failures not seen before (and not silenced) came
    /// up and failure notices are on.
    pub notice: Option<String>,
}

/// Takes in a finished run of the job shown as `label`: its failures join the
/// failure list `known` (each key once, the newest kept), and the log lines and
/// the notice of the run are made.
pub fn finish_sync_run(
    known: &mut Vec<crate::sync::outcome::SyncFailure>,
    silenced: &Vec<String>,
    label: &str,
    outcome: &SyncOutcome,
    notify_enabled: bool,
) -> (r: RunReport)
    requires
        outcome.failures@.len() + outcome.truncated_failures <= u64::MAX,
    ensures
        crate::sync::failures::fviews(final(known)@) == crate::sync::failures::keep_last(
            crate::sync::failures::absorb(
                crate::sync::failures::fviews(old(known)@),
                crate::sync::failures::fviews(outcome.failures@),
            ),
            crate::sync::failures::MAX_TRACKED_FAILURES as nat,
        ),
        r.lines@.map_values(|e: LogEntry| entry_view(e)) == finish_lines(
            label@,
            *outcome,
            (crate::sync::failures::absorb(
                crate::sync::failures::fviews(old(known)@),
                crate::sync::failures::fviews(outcome.failures@),
            ).len() - old(known)@.len()) as nat,
        ),
        ({
            let fresh = crate::sync::failures::fresh_unsilenced(
                crate::sync::failures::fviews(old(known)@),
                crate::sync::failures::fviews(outcome.failures@),
                silenced@.map_values(|s: String| s@),
            );
            match r.notice {
                Some(n) => notify_enabled && fresh > 0 && n@ == failure_notice(label@, fresh),
                None => !(notify_enabled && fresh > 0),
            }
        }),
{
    let mut lines: Vec<LogEntry> = Vec::new();
    match sync_changes_log_line(label, outcome) {
        Some(line) => {
            lines.push(LogEntry { level: owned("INFO"), message: line });
        },
        None => {},
    }
    let ghost first = lines@.map_values(|e: LogEntry| entry_view(e));
    let (recorded, fresh) = crate::sync::failures::take_in_failures(known, &outcome.failures, silenced);
    match sync_failure_log_line(label, recorded, outcome.truncated_failures) {
        Some(line) => {
            lines.push(LogEntry { level: owned("ERROR"), message: line });
        },
        None => {},
    }
    proof {
        reveal_strlit("INFO");
        reveal_strlit("ERROR");
        assert(lines@.map_values(|e: LogEntry| entry_view(e)) =~= finish_lines(
            label@,
            *outcome,
            recorded as nat,
        ));
    }
    let notice = if notify_enabled && fresh > 0 {
        Some(sync_failure_notice(label, fresh))
    } else {
        None
    };
    RunReport { lines, notice }
}

/// Some enabled target runs: one of `running` (the names of the processes that
/// have windows) is its process name, ASCII case aside.
pub open spec fn target_running(targets: Seq<TargetApp>, running: Seq<String>) -> bool {
    exists|i: int, j: int|
        0 <= i < targets.len() && targets[i].enabled && 0 <= j < running.len() && #[trigger] eq_ignore_ascii_case(
            running[j]@,
            targets[i].process_name@,
        )
}

/// Whether some enabled target runs, as [`target_running`] says.
pub fn any_target_running(targets: &Vec<TargetApp>, running: &Vec<String>) -> (r: bool)
    ensures
        r == target_running(targets@, running@),
{
    let mut i: usize = 0;
    while i < targets.len()
        invariant
            i <= targets@.len(),
            forall|a: int, b: int|
                0 <= a < i && targets@[a].enabled && 0 <= b < running@.len() ==> !#[trigger] eq_ignore_ascii_case(
                    running@[b]@,
                    targets@[a].process_name@,
                ),
        decreases targets@.len() - i,
    {
        if targets[i].enabled {
            let name = chars_of(targets[i].process_name.as_str());
            let mut j: usize = 0;
            while j < running.len()
                invariant
                    i < targets@.len(),
                    targets@[i as int].enabled,
                    j <= running@.len(),
                    name@ == targets@[i as int].process_name@,
                    forall|b: int| 0 <= b < j ==> !#[trigger] eq_ignore_ascii_case(running@[b]@, targets@[i as int].process_name@),
                    forall|a: int, b: int|
                        0 <= a < i && targets@[a].enabled && 0 <= b < running@.len() ==> !#[trigger] eq_ignore_ascii_case(
                            running@[b]@,
                            targets@[a].process_name@,
                        ),
                decreases running@.len() - j,
            {
                if chars_eq_ignore_ascii_case(chars_of(running[j].as_str()).as_slice(), name.as_slice()) {
                    assert(eq_ignore_ascii_case(running@[j as int]@, targets@[i as int].process_name@));
                    return true;
                }
                j = j + 1;
            }
        }
        i = i + 1;
    }
    assert(!target_running(targets@, running@)) by {
        if target_running(targets@, running@) {
            let (a, b) = choose|a: int, b: int|
                0 <= a < targets@.len() && targets@[a].enabled && 0 <= b < running@.len() && #[trigger] eq_ignore_ascii_case(
                    running@[b]@,
                    targets@[a].process_name@,
                );
            assert(!eq_ignore_ascii_case(running@[b]@, targets@[a].process_name@));
        }
    }
    false
}

} // verus!
