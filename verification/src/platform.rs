//! Platform facts the logic reads: service and task states with the names shown
//! for them, the rule that picks ad-window candidates by window class, what a
//! captured ad window keeps of its original placement and when it may be put
//! back, and the logon task's command line and query results.

use vstd::prelude::*;
use crate::text::{
    chars_contains, chars_eq_ignore_ascii_case, chars_of, chars_to_ascii_lower, contains_seq, decimal,
    eq_ignore_ascii_case, lower_all, owned, push_all, push_decimal, push_str, string_from, trim,
    trim_chars,
};

verus! {

/// Running state of a system service.
#[derive(Clone, Copy, Debug, PartialEq, Eq, Structural)]
pub enum SysServiceStatus {
    Running,
    Stopped,
    Paused,
    StartPending,
    StopPending,
    Unknown,
}

impl SysServiceStatus {
    /// The name shown for the state.
    pub fn label(&self) -> (r: &'static str)
        ensures
            r@ == match *self {
                SysServiceStatus::Running => "Running"@,
                SysServiceStatus::Stopped => "Stopped"@,
                SysServiceStatus::Paused => "Paused"@,
                SysServiceStatus::StartPending => "Starting..."@,
                SysServiceStatus::StopPending => "Stopping..."@,
                SysServiceStatus::Unknown => "Unknown"@,
            },
    {
        match self {
            SysServiceStatus::Running => "Running",
            SysServiceStatus::Stopped => "Stopped",
            SysServiceStatus::Paused => "Paused",
            SysServiceStatus::StartPending => "Starting...",
            SysServiceStatus::StopPending => "Stopping...",
            SysServiceStatus::Unknown => "Unknown",
        }
    }
}

/// How a system service starts.
#[derive(Clone, Copy, Debug, PartialEq, Eq, Structural)]
pub enum SysServiceStartType {
    Automatic,
    Manual,
    Disabled,
    Unknown,
}

impl SysServiceStartType {
    /// The name shown for the start type.
    pub fn label(&self) -> (r: &'static str)
        ensures
            r@ == match *self {
                SysServiceStartType::Automatic => "Automatic"@,
                SysServiceStartType::Manual => "Manual"@,
                SysServiceStartType::Disabled => "Disabled"@,
                SysServiceStartType::Unknown => "Unknown"@,
            },
    {
        match self {
            SysServiceStartType::Automatic => "Automatic",
            SysServiceStartType::Manual => "Manual",
            SysServiceStartType::Disabled => "Disabled",
            SysServiceStartType::Unknown => "Unknown",
        }
    }
}

/// Summary of one installed system service.
#[derive(Clone, Debug)]
pub struct SysServiceInfo {
    pub name: String,
    pub display_name: String,
    pub status: SysServiceStatus,
    pub start_type: SysServiceStartType,
}

/// The status the service manager reports as a number (its current state).
pub open spec fn service_status_of(code: u32) -> SysServiceStatus {
    if code == 1 {
        SysServiceStatus::Stopped
    } else if code == 2 {
        SysServiceStatus::StartPending
    } else if code == 3 {
        SysServiceStatus::StopPending
    } else if code == 4 {
        SysServiceStatus::Running
    } else if code == 7 {
        SysServiceStatus::Paused
    } else {
        SysServiceStatus::Unknown
    }
}

pub fn service_status_from_code(code: u32) -> (r: SysServiceStatus)
    ensures
        r == service_status_of(code),
{
    if code == 1 {
        SysServiceStatus::Stopped
    } else if code == 2 {
        SysServiceStatus::StartPending
    } else if code == 3 {
        SysServiceStatus::StopPending
    } else if code == 4 {
        SysServiceStatus::Running
    } else if code == 7 {
        SysServiceStatus::Paused
    } else {
        SysServiceStatus::Unknown
    }
}

/// The start type the service manager reports as a number.
pub open spec fn service_start_type_of(code: u32) -> SysServiceStartType {
    if code == 2 {
        SysServiceStartType::Automatic
    } else if code == 3 {
        SysServiceStartType::Manual
    } else if code == 4 {
        SysServiceStartType::Disabled
    } else {
        SysServiceStartType::Unknown
    }
}

pub fn service_start_type_from_code(code: u32) -> (r: SysServiceStartType)
    ensures
        r == service_start_type_of(code),
{
    if code == 2 {
        SysServiceStartType::Automatic
    } else if code == 3 {
        SysServiceStartType::Manual
    } else if code == 4 {
        SysServiceStartType::Disabled
    } else {
        SysServiceStartType::Unknown
    }
}

/// A service as the service list shows it: the list does not read start types.
pub fn listed_service(name: String, display_name: String, status_code: u32) -> (r: SysServiceInfo)
    ensures
        r.name == name,
        r.display_name == display_name,
        r.status == service_status_of(status_code),
        r.start_type == SysServiceStartType::Unknown,
{
    SysServiceInfo {
        name,
        display_name,
        status: service_status_from_code(status_code),
        start_type: SysServiceStartType::Unknown,
    }
}

/// A service read in detail. `config` holds its start type code and display
/// name when its configuration could be read; a blank or unread display name
/// falls back to the service name.
pub fn queried_service(name: &str, status_code: u32, config: Option<(u32, String)>) -> (r: SysServiceInfo)
    ensures
        r.name@ == name@,
        r.status == service_status_of(status_code),
        r.start_type == (match config {
            Some((code, _)) => service_start_type_of(code),
            None => SysServiceStartType::Unknown,
        }),
        r.display_name@ == (match config {
            Some((_, shown)) => if shown@.len() > 0 { shown@ } else { name@ },
            None => name@,
        }),
{
    let (start_type, display) = match config {
        Some((code, shown)) => (service_start_type_from_code(code), shown),
        None => (SysServiceStartType::Unknown, String::new()),
    };
    let display_name = if display.as_str().is_empty() { owned(name) } else { display };
    SysServiceInfo {
        name: owned(name),
        display_name,
        status: service_status_from_code(status_code),
        start_type,
    }
}

/// State of this program's own Windows service.
#[derive(Clone, Copy, Debug, PartialEq, Eq, Structural)]
pub enum WinServiceState {
    /// Not registered with the service manager.
    NotInstalled,
    Stopped,
    StartPending,
    Running,
    StopPending,
    /// The state could not be read (rights, for instance).
    Unknown,
}

impl WinServiceState {
    /// The name shown for the state.
    pub fn label(&self) -> (r: &'static str)
        ensures
            r@ == match *self {
                WinServiceState::NotInstalled => "Not Installed"@,
                WinServiceState::Stopped => "Stopped"@,
                WinServiceState::StartPending => "Starting..."@,
                WinServiceState::Running => "Running"@,
                WinServiceState::StopPending => "Stopping..."@,
                WinServiceState::Unknown => "Unknown"@,
            },
    {
        match self {
            WinServiceState::NotInstalled => "Not Installed",
            WinServiceState::Stopped => "Stopped",
            WinServiceState::StartPending => "Starting...",
            WinServiceState::Running => "Running",
            WinServiceState::StopPending => "Stopping...",
            WinServiceState::Unknown => "Unknown",
        }
    }
}

/// Name of the logon task registered with the task scheduler.
pub const TASK_NAME: &'static str = "gpui-convenience-tools";

/// State of the logon task.
#[derive(Clone, Copy, Debug, PartialEq, Eq, Structural)]
pub enum TaskState {
    NotInstalled,
    Ready,
    Running,
    Disabled,
    Unknown,
}

impl TaskState {
    /// The name shown for the state.
    pub fn label(&self) -> (r: &'static str)
        ensures
            r@ == match *self {
                TaskState::NotInstalled => "등록되지 않음"@,
                TaskState::Ready => "대기 중"@,
                TaskState::Running => "실행 중"@,
                TaskState::Disabled => "비활성화"@,
                TaskState::Unknown => "알 수 없음"@,
            },
    {
        match self {
            TaskState::NotInstalled => "등록되지 않음",
            TaskState::Ready => "대기 중",
            TaskState::Running => "실행 중",
            TaskState::Disabled => "비활성화",
            TaskState::Unknown => "알 수 없음",
        }
    }
}

/// The platform without ad blocking, services or logon tasks.
#[derive(Clone, Copy, Debug, PartialEq, Eq, Structural)]
pub struct FallbackPlatform {}

impl FallbackPlatform {
    pub fn new() -> (r: FallbackPlatform)
        ensures
            r == (FallbackPlatform {}),
    {
        FallbackPlatform {}
    }
}

/// The Windows platform.
#[derive(Clone, Copy, Debug, PartialEq, Eq, Structural)]
pub struct WindowsPlatform {}

impl WindowsPlatform {
    pub fn new() -> (r: WindowsPlatform)
        ensures
            r == (WindowsPlatform {}),
    {
        WindowsPlatform {}
    }
}

// ───────────────────────── ad windows ─────────────────────────

/// The class filter that finds web-view windows by their usual class names.
pub open spec fn auto_webview_filter() -> Seq<char> {
    "auto:webview"@
}

/// Whether a window of class `class_name` matches a target's class filter: the
/// automatic filter matches classes containing `chrome_widgetwin_1` or `webview`
/// (ASCII case aside); any other filter matches its own class (ASCII case aside),
/// and an empty filter matches nothing.
pub open spec fn class_matches(class_name: Seq<char>, filter: Seq<char>) -> bool {
    if eq_ignore_ascii_case(filter, auto_webview_filter()) {
        contains_seq(lower_all(class_name), "chrome_widgetwin_1"@) || contains_seq(
            lower_all(class_name),
            "webview"@,
        )
    } else {
        filter.len() > 0 && eq_ignore_ascii_case(class_name, filter)
    }
}

pub fn class_filter_matches(class_name: &str, class_filter: &str) -> (r: bool)
    ensures
        r == class_matches(class_name@, class_filter@),
{
    let filter = chars_of(class_filter);
    let auto = chars_of("auto:webview");
    if chars_eq_ignore_ascii_case(filter.as_slice(), auto.as_slice()) {
        let lower = chars_to_ascii_lower(chars_of(class_name).as_slice());
        let chrome = chars_of("chrome_widgetwin_1");
        let webview = chars_of("webview");
        return chars_contains(lower.as_slice(), chrome.as_slice()) || chars_contains(
            lower.as_slice(),
            webview.as_slice(),
        );
    }
    let name = chars_of(class_name);
    filter.len() > 0 && chars_eq_ignore_ascii_case(name.as_slice(), filter.as_slice())
}

/// A window is an ad candidate when it is visible, its class matches the filter,
/// and it is owned by another window or is a tool window (a program's main
/// window is neither, and is left alone).
pub fn is_ad_window_candidate(
    visible: bool,
    class_name: &str,
    class_filter: &str,
    has_owner: bool,
    tool_window: bool,
) -> (r: bool)
    ensures
        r == (visible && class_matches(class_name@, class_filter@) && (has_owner || tool_window)),
{
    if !visible {
        return false;
    }
    if !class_filter_matches(class_name, class_filter) {
        return false;
    }
    has_owner || tool_window
}

/// How an ad window was shown before it was collapsed.
#[derive(Clone, Copy, Debug, PartialEq, Eq, Structural)]
pub enum AdWindowShowState {
    Hidden,
    Normal,
    Minimized,
    Maximized,
}

/// The placement of an ad window before it was collapsed, for putting it back.
/// The window handle can be reused once its process ends, so the process id is
/// kept too.
#[derive(Clone, Copy, Debug, PartialEq, Eq, Structural)]
pub struct AdWindowSnapshot {
    pub handle: isize,
    pub process_id: u32,
    pub x: i32,
    pub y: i32,
    pub width: i32,
    pub height: i32,
    pub show_state: AdWindowShowState,
}

/// Why a window's placement could not be captured.
#[derive(Clone, Copy, Debug, PartialEq, Eq, Structural)]
pub enum CaptureError {
    /// No process owns the window, or its rectangle could not be read.
    Unreadable,
    /// The rectangle has no area.
    EmptySize { width: i64, height: i64 },
}

/// The snapshot of a window with the given process id, rectangle (left, top,
/// right, bottom, as read) and show flags; the hidden flag wins over minimized,
/// which wins over maximized.
pub fn snapshot_from(
    handle: isize,
    process_id: u32,
    rect: Option<(i32, i32, i32, i32)>,
    visible: bool,
    iconic: bool,
    zoomed: bool,
) -> (r: Result<AdWindowSnapshot, CaptureError>)
    requires
        rect matches Some((l, t, ri, b)) ==> i32::MIN <= ri - l <= i32::MAX && i32::MIN <= b - t
            <= i32::MAX,
    ensures
        process_id == 0 || rect is None ==> r == Err::<AdWindowSnapshot, CaptureError>(CaptureError::Unreadable),
        process_id != 0 ==> (rect matches Some((l, t, ri, b)) ==> {
            let w = ri - l;
            let h = b - t;
            if w <= 0 || h <= 0 {
                r == Err::<AdWindowSnapshot, CaptureError>(CaptureError::EmptySize { width: w as i64, height: h as i64 })
            } else {
                r == Ok::<AdWindowSnapshot, CaptureError>(AdWindowSnapshot {
                    handle,
                    process_id,
                    x: l,
                    y: t,
                    width: w as i32,
                    height: h as i32,
                    show_state: if !visible {
                        AdWindowShowState::Hidden
                    } else if iconic {
                        AdWindowShowState::Minimized
                    } else if zoomed {
                        AdWindowShowState::Maximized
                    } else {
                        AdWindowShowState::Normal
                    },
                })
            }
        }),
{
    if process_id == 0 {
        return Err(CaptureError::Unreadable);
    }
    let (l, t, ri, b) = match rect {
        Some(rc) => rc,
        None => {
            return Err(CaptureError::Unreadable);
        },
    };
    let w: i64 = ri as i64 - l as i64;
    let h: i64 = b as i64 - t as i64;
    if w <= 0 || h <= 0 {
        return Err(CaptureError::EmptySize { width: w, height: h });
    }
    let show_state = if !visible {
        AdWindowShowState::Hidden
    } else if iconic {
        AdWindowShowState::Minimized
    } else if zoomed {
        AdWindowShowState::Maximized
    } else {
        AdWindowShowState::Normal
    };
    Ok(AdWindowSnapshot { handle, process_id, x: l, y: t, width: w as i32, height: h as i32, show_state })
}


/// How a saved placement is shown again, by its show state.
#[derive(Clone, Copy, Debug, PartialEq, Eq, Structural)]
pub enum ShowCommand {
    Hide,
    ShowNoActivate,
    ShowMinimizedNoActivate,
    ShowMaximized,
}

pub open spec fn show_command_of(state: AdWindowShowState) -> ShowCommand {
    match state {
        AdWindowShowState::Hidden => ShowCommand::Hide,
        AdWindowShowState::Normal => ShowCommand::ShowNoActivate,
        AdWindowShowState::Minimized => ShowCommand::ShowMinimizedNoActivate,
        AdWindowShowState::Maximized => ShowCommand::ShowMaximized,
    }
}

/// Why a saved placement was not put back.
#[derive(Clone, Copy, Debug, PartialEq, Eq, Structural)]
pub enum RestoreError {
    /// The window no longer exists.
    WindowGone,
    /// The handle now belongs to another process.
    OtherProcess { expected: u32, found: u32 },
}

pub open spec fn restore_error_text(e: RestoreError) -> Seq<char> {
    match e {
        RestoreError::WindowGone => "saved HWND is no longer valid"@,
        RestoreError::OtherProcess { expected, found } => "saved HWND belongs to a different process: expected "@
            + decimal(expected as nat) + ", got "@ + decimal(found as nat),
    }
}

impl RestoreError {
    pub fn message(&self) -> (r: String)
        ensures
            r@ == restore_error_text(*self),
    {
        match self {
            RestoreError::WindowGone => owned("saved HWND is no longer valid"),
            RestoreError::OtherProcess { expected, found } => {
                let mut out: Vec<char> = Vec::new();
                push_str(&mut out, "saved HWND belongs to a different process: expected ");
                push_decimal(&mut out, *expected as u64);
                push_str(&mut out, ", got ");
                push_decimal(&mut out, *found as u64);
                string_from(out.as_slice())
            },
        }
    }
}

/// Whether a saved placement may be put back: only on the same window, still
/// owned by the process that owned it when it was saved. `window_exists` and
/// `process_id` are what the window reads now.
pub fn restore_check(window_exists: bool, process_id: u32, snapshot: &AdWindowSnapshot) -> (r: Result<ShowCommand, RestoreError>)
    ensures
        !window_exists ==> r == Err::<ShowCommand, RestoreError>(RestoreError::WindowGone),
        window_exists && process_id != snapshot.process_id ==> r == Err::<ShowCommand, RestoreError>(
            RestoreError::OtherProcess { expected: snapshot.process_id, found: process_id },
        ),
        window_exists && process_id == snapshot.process_id ==> r == Ok::<ShowCommand, RestoreError>(
            show_command_of(snapshot.show_state),
        ),
{
    if !window_exists {
        return Err(RestoreError::WindowGone);
    }
    if process_id != snapshot.process_id {
        return Err(RestoreError::OtherProcess { expected: snapshot.process_id, found: process_id });
    }
    Ok(match snapshot.show_state {
        AdWindowShowState::Hidden => ShowCommand::Hide,
        AdWindowShowState::Normal => ShowCommand::ShowNoActivate,
        AdWindowShowState::Minimized => ShowCommand::ShowMinimizedNoActivate,
        AdWindowShowState::Maximized => ShowCommand::ShowMaximized,
    })
}

// ───────────────────────── logon task ─────────────────────────

/// The task state read from `schtasks /Query` (`None`: it could not be run;
/// else whether it succeeded and what it printed). A failed query means no such
/// task; in the output, lower-cased in ASCII, "running" wins over "disabled", in
/// either English or Korean; a task listed otherwise is ready.
pub open spec fn task_state_of(query: Option<(bool, Seq<char>)>) -> TaskState {
    match query {
        None => TaskState::Unknown,
        Some((succeeded, out)) => if !succeeded {
            TaskState::NotInstalled
        } else if contains_seq(lower_all(out), "running"@) || contains_seq(lower_all(out), "실행 중"@) {
            TaskState::Running
        } else if contains_seq(lower_all(out), "disabled"@) || contains_seq(lower_all(out), "사용 안 함"@) {
            TaskState::Disabled
        } else {
            TaskState::Ready
        },
    }
}

pub fn task_state_from_query(query: Option<(bool, String)>) -> (r: TaskState)
    ensures
        r == task_state_of(match query {
            None => None,
            Some((succeeded, out)) => Some((succeeded, out@)),
        }),
{
    match query {
        None => TaskState::Unknown,
        Some((succeeded, out)) => {
            if !succeeded {
                return TaskState::NotInstalled;
            }
            let low = chars_to_ascii_lower(chars_of(out.as_str()).as_slice());
            let running = chars_of("running");
            let running_ko = chars_of("실행 중");
            let disabled = chars_of("disabled");
            let disabled_ko = chars_of("사용 안 함");
            if chars_contains(low.as_slice(), running.as_slice()) || chars_contains(low.as_slice(), running_ko.as_slice()) {
                TaskState::Running
            } else if chars_contains(low.as_slice(), disabled.as_slice()) || chars_contains(
                low.as_slice(),
                disabled_ko.as_slice(),
            ) {
                TaskState::Disabled
            } else {
                TaskState::Ready
            }
        },
    }
}

/// The command the logon task runs: the program, quoted, in tray mode.
pub fn task_command_line(exe: &str) -> (r: String)
    ensures
        r@ == "\""@ + exe@ + "\" --tray"@,
{
    let mut out: Vec<char> = Vec::new();
    push_str(&mut out, "\"");
    push_str(&mut out, exe);
    push_str(&mut out, "\" --tray");
    string_from(out.as_slice())
}

/// The error of a `schtasks` command that ran and failed: its standard error,
/// then its standard output, each trimmed.
pub fn schtasks_failure(action: &str, stderr: &str, stdout: &str) -> (r: String)
    ensures
        r@ == "schtasks /"@ + action@ + " 실패: "@ + trim(stderr@) + trim(stdout@),
{
    let mut out: Vec<char> = Vec::new();
    push_str(&mut out, "schtasks /");
    push_str(&mut out, action);
    push_str(&mut out, " 실패: ");
    let e = trim_chars(chars_of(stderr).as_slice());
    push_all(&mut out, e.as_slice());
    let o = trim_chars(chars_of(stdout).as_slice());
    push_all(&mut out, o.as_slice());
    string_from(out.as_slice())
}

/// The error of a `schtasks` command that could not be started.
pub fn schtasks_launch_failure(action: &str, reason: &str) -> (r: String)
    ensures
        r@ == "schtasks /"@ + action@ + " 실행 실패: "@ + reason@,
{
    let mut out: Vec<char> = Vec::new();
    push_str(&mut out, "schtasks /");
    push_str(&mut out, action);
    push_str(&mut out, " 실행 실패: ");
    push_str(&mut out, reason);
    string_from(out.as_slice())
}

} // verus!
