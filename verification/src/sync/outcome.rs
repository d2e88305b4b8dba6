//! Result of one synchronisation run and the reasons shown for failed entries.

use vstd::prelude::*;
use crate::text::{decimal, owned, push_all, push_decimal, push_str, string_from};

verus! {

/// At most this many failures are listed; the rest are only counted.
pub const MAX_FAILURES: usize = 100;

/// Failure of one entry during a run.
#[derive(Clone, Debug, PartialEq, Eq)]
pub struct SyncFailure {
    /// Path relative to the source (for display).
    pub path: String,
    /// Reason a person can read.
    pub reason: String,
}

/// Key used to suppress repeated notifications: the same reason on the same path.
pub open spec fn failure_key(path: Seq<char>, reason: Seq<char>) -> Seq<char> {
    path + seq!['|'] + reason
}

impl SyncFailure {
    pub fn key(&self) -> (r: String)
        ensures
            r@ == failure_key(self.path@, self.reason@),
    {
        let mut v = crate::text::chars_of(self.path.as_str());
        v.push('|');
        push_str(&mut v, self.reason.as_str());
        string_from(v.as_slice())
    }
}

/// Result of one run.
#[derive(Clone, Debug)]
pub struct SyncOutcome {
    pub copied: usize,
    pub skipped: usize,
    pub deleted: usize,
    pub failures: Vec<SyncFailure>,
    /// Failures beyond `MAX_FAILURES`, counted but not listed.
    pub truncated_failures: usize,
    /// The run stopped early because the user asked it to.
    pub cancelled: bool,
    /// The run continued from a point where an earlier run was interrupted.
    pub resumed: bool,
}

/// Total failures of an outcome: listed plus counted only.
pub open spec fn failed_count(o: SyncOutcome) -> nat {
    (o.failures@.len() + o.truncated_failures) as nat
}

/// One-line summary of a run.
pub open spec fn summary_text(
    copied: nat,
    skipped: nat,
    deleted: nat,
    failed: nat,
    resumed: bool,
    cancelled: bool,
) -> Seq<char> {
    "복사 "@ + decimal(copied) + "건, 건너뜀 "@ + decimal(skipped) + "건"@ + (if deleted > 0 {
        ", 삭제 "@ + decimal(deleted) + "건"@
    } else {
        Seq::empty()
    }) + (if failed > 0 {
        ", 실패 "@ + decimal(failed) + "건"@
    } else {
        Seq::empty()
    }) + (if resumed {
        " — 이어서 실행"@
    } else {
        Seq::empty()
    }) + (if cancelled {
        " — 중지됨"@
    } else {
        Seq::empty()
    })
}

impl SyncOutcome {
    /// An outcome with nothing done yet.
    pub fn new() -> (r: SyncOutcome)
        ensures
            r.copied == 0,
            r.skipped == 0,
            r.deleted == 0,
            r.failures@.len() == 0,
            r.truncated_failures == 0,
            !r.cancelled,
            !r.resumed,
    {
        SyncOutcome {
            copied: 0,
            skipped: 0,
            deleted: 0,
            failures: Vec::new(),
            truncated_failures: 0,
            cancelled: false,
            resumed: false,
        }
    }

    /// Records a failure: listed while fewer than `MAX_FAILURES` are listed, counted
    /// otherwise (the count stops at `usize::MAX`).
    pub fn fail(&mut self, path: String, reason: String)
        ensures
            old(self).failures@.len() < MAX_FAILURES ==> final(self).failures@ == old(self).failures@.push(SyncFailure { path, reason }) && final(self).truncated_failures
                == old(self).truncated_failures,
            old(self).failures@.len() >= MAX_FAILURES ==> final(self).failures@ == old(self).failures@ && final(self).truncated_failures == (if old(self).truncated_failures
                < usize::MAX {
                old(self).truncated_failures + 1
            } else {
                old(self).truncated_failures as int
            }),
            final(self).copied == old(self).copied,
            final(self).skipped == old(self).skipped,
            final(self).deleted == old(self).deleted,
            final(self).cancelled == old(self).cancelled,
            final(self).resumed == old(self).resumed,
    {
        if self.failures.len() >= MAX_FAILURES {
            if self.truncated_failures < usize::MAX {
                self.truncated_failures = self.truncated_failures + 1;
            }
            return;
        }
        self.failures.push(SyncFailure { path, reason });
    }

    /// Whether any failure was recorded, listed or only counted.
    pub fn has_failures(&self) -> (r: bool)
        ensures
            r == (self.failures@.len() > 0 || self.truncated_failures > 0),
    {
        self.failures.len() > 0 || self.truncated_failures > 0
    }

    /// Summary line: copied and skipped counts, then deletions, failures, whether
    /// the run resumed and whether it was stopped, each only when it applies.
    pub fn summary(&self) -> (r: String)
        requires
            self.failures@.len() + self.truncated_failures <= u64::MAX,
        ensures
            r@ == summary_text(
                self.copied as nat,
                self.skipped as nat,
                self.deleted as nat,
                failed_count(*self),
                self.resumed,
                self.cancelled,
            ),
    {
        let mut s: Vec<char> = Vec::new();
        push_str(&mut s, "복사 ");
        push_decimal(&mut s, self.copied as u64);
        push_str(&mut s, "건, 건너뜀 ");
        push_decimal(&mut s, self.skipped as u64);
        push_str(&mut s, "건");
        let ghost a = s@;
        if self.deleted > 0 {
            push_str(&mut s, ", 삭제 ");
            push_decimal(&mut s, self.deleted as u64);
            push_str(&mut s, "건");
        }
        let ghost b = s@;
        let failed = self.failures.len() as u64 + self.truncated_failures as u64;
        if failed > 0 {
            push_str(&mut s, ", 실패 ");
            push_decimal(&mut s, failed);
            push_str(&mut s, "건");
        }
        let ghost c = s@;
        if self.resumed {
            push_str(&mut s, " — 이어서 실행");
        }
        let ghost d = s@;
        if self.cancelled {
            push_str(&mut s, " — 중지됨");
        }
        proof {
            let del = if self.deleted > 0 {
                ", 삭제 "@ + decimal(self.deleted as nat) + "건"@
            } else {
                Seq::empty()
            };
            let fl = if failed > 0 {
                ", 실패 "@ + decimal(failed as nat) + "건"@
            } else {
                Seq::empty()
            };
            let rs = if self.resumed {
                " — 이어서 실행"@
            } else {
                Seq::empty()
            };
            let cn = if self.cancelled {
                " — 중지됨"@
            } else {
                Seq::empty()
            };
            assert(b =~= a + del);
            assert(c =~= b + fl);
            assert(d =~= c + rs);
            assert(s@ =~= d + cn);
        }
        string_from(s.as_slice())
    }
}

// ───────────────────────── I/O error reasons ─────────────────────────

/// The kinds of I/O error whose reason has its own wording.
#[derive(Clone, Copy, Debug, PartialEq, Eq, Structural)]
pub enum IoErrorKind {
    NotFound,
    PermissionDenied,
    AlreadyExists,
    Other,
}

/// What the sync rules read of an I/O error: its kind, the operating system's
/// code when there is one, and its own message.
#[derive(Clone, Debug)]
pub struct IoErrorInfo {
    pub kind: IoErrorKind,
    pub raw_os_error: Option<i32>,
    pub message: String,
}

/// Reason for an error kind, empty when the kind has no wording of its own.
pub open spec fn kind_reason(kind: IoErrorKind) -> Seq<char> {
    match kind {
        IoErrorKind::PermissionDenied => "접근이 거부되었습니다(권한 부족)."@,
        IoErrorKind::NotFound => "파일 또는 경로를 찾을 수 없습니다."@,
        IoErrorKind::AlreadyExists => "대상에 같은 이름의 항목이 이미 있습니다."@,
        IoErrorKind::Other => Seq::empty(),
    }
}

/// Reason for a Windows error code that people often cannot decipher.
pub open spec fn os_code_reason(code: i32) -> Option<Seq<char>> {
    if code == 5 {
        Some("접근이 거부되었습니다(관리자 권한이 필요할 수 있습니다)."@)
    } else if code == 32 {
        Some("다른 프로세스가 파일을 사용 중입니다(공유 위반)."@)
    } else if code == 33 {
        Some("파일 일부가 잠겨 있습니다."@)
    } else if code == 112 {
        Some("대상 디스크 공간이 부족합니다."@)
    } else if code == 206 {
        Some("경로가 너무 깁니다(260자 제한)."@)
    } else if code == 1920 {
        Some("시스템이 파일에 접근할 수 없습니다."@)
    } else {
        None
    }
}

/// Reason shown for an I/O error: the code's wording with the code, else the
/// kind's wording, else the error's own message.
pub open spec fn io_reason(kind: IoErrorKind, code: Option<i32>, message: Seq<char>) -> Seq<char> {
    match code {
        Some(c) if os_code_reason(c) is Some => os_code_reason(c)->0 + " (code "@ + decimal(
            c as nat,
        ) + ")"@,
        _ => if kind_reason(kind).len() > 0 {
            kind_reason(kind)
        } else {
            message
        },
    }
}

fn os_code_text(code: i32) -> (r: Option<&'static str>)
    ensures
        match r {
            Some(s) => os_code_reason(code) == Some(s@),
            None => os_code_reason(code) is None,
        },
{
    if code == 5 {
        Some("접근이 거부되었습니다(관리자 권한이 필요할 수 있습니다).")
    } else if code == 32 {
        Some("다른 프로세스가 파일을 사용 중입니다(공유 위반).")
    } else if code == 33 {
        Some("파일 일부가 잠겨 있습니다.")
    } else if code == 112 {
        Some("대상 디스크 공간이 부족합니다.")
    } else if code == 206 {
        Some("경로가 너무 깁니다(260자 제한).")
    } else if code == 1920 {
        Some("시스템이 파일에 접근할 수 없습니다.")
    } else {
        None
    }
}

/// Turns an I/O error into the reason shown to the user.
pub fn describe_io_error(err: &IoErrorInfo) -> (r: String)
    ensures
        r@ == io_reason(err.kind, err.raw_os_error, err.message@),
{
    if let Some(code) = err.raw_os_error {
        if let Some(text) = os_code_text(code) {
            let mut v: Vec<char> = Vec::new();
            push_str(&mut v, text);
            push_str(&mut v, " (code ");
            push_decimal(&mut v, code as u64);
            push_str(&mut v, ")");
            return string_from(v.as_slice());
        }
    }
    let base: &str = match err.kind {
        IoErrorKind::PermissionDenied => "접근이 거부되었습니다(권한 부족).",
        IoErrorKind::NotFound => "파일 또는 경로를 찾을 수 없습니다.",
        IoErrorKind::AlreadyExists => "대상에 같은 이름의 항목이 이미 있습니다.",
        IoErrorKind::Other => "",
    };
    proof {
        reveal_strlit("");
    }
    if !base.is_empty() {
        return owned(base);
    }
    err.message.clone()
}

} // verus!
