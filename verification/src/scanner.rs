//! The ad-window scan, as a state machine.
//!
//! Every tick the scanner looks at the enabled targets that run, collects their
//! ad-window candidates, collapses each candidate not collapsed yet (keeping a
//! snapshot of its placement), collapses again a window that was restored by hand,
//! and restores the windows whose program ended, or all of them when no target
//! runs or blocking is switched off. The caller performs each [`ScanAction`] on
//! the platform and answers with a [`ScanEvent`].

use vstd::prelude::*;
use crate::platform::AdWindowSnapshot;
use crate::state::TargetApp;
use crate::text::owned;

verus! {

/// The next piece of platform work.
#[derive(Debug)]
pub enum ScanAction {
    /// Is a program with this process name running?
    CheckTargetRunning { process_name: String },
    /// List the ad-window candidates of this program.
    FindAdWindows { process_name: String, class_filter: String },
    /// Does this window still exist?
    CheckWindowAlive { handle: isize },
    /// Which process owns this window?
    ReadProcessId { handle: isize },
    /// Is this window still collapsed?
    CheckCollapsed { handle: isize },
    /// Collapse again a window whose snapshot is kept.
    Collapse { handle: isize },
    /// Capture the placement of a new candidate.
    Capture { handle: isize },
    /// Collapse the window just captured.
    CollapseCaptured { handle: isize },
    /// Is the process with this id still running?
    CheckProcessRunning { process_id: u32 },
    /// Put a window back as the snapshot says.
    RestoreWindow { snapshot: AdWindowSnapshot },
    /// Tell that an ad window was hidden.
    NotifyAdBlocked,
    /// Tell whether a target runs (only when it changed).
    NotifyTargetStatus { running: bool },
    /// Wait before the next tick.
    Sleep { secs: u64 },
}

/// The answer to the last action.
#[derive(Debug)]
pub enum ScanEvent {
    /// Start of a tick, with the settings as they stand.
    Tick { enabled: bool, targets: Vec<TargetApp>, interval_secs: u32 },
    Answer(bool),
    Windows(Result<Vec<isize>, String>),
    ProcessId(Result<u32, String>),
    Collapsed(Result<bool, String>),
    Captured(Result<AdWindowSnapshot, String>),
    Done(Result<(), String>),
    /// Acknowledges a notice or a sleep.
    Acknowledged,
}

#[derive(Clone, Copy, Debug, PartialEq, Eq, Structural)]
pub enum ScanStage {
    Idle,
    TargetRunning,
    FindWindows,
    AliveCheck,
    ProcessId,
    CollapsedCheck,
    Recollapse,
    Capture,
    CollapseCaptured,
    Notified,
    RestoreCheck,
    Restore,
    Status,
}

/// The scanner's state across ticks, and within the current tick.
pub struct AdScanner {
    /// Collapsed windows and their original placement, one per handle.
    pub collapsed: Vec<AdWindowSnapshot>,
    /// The target status last told, when told at all.
    pub last_running: Option<bool>,
    /// Whether status changes are told (the window's loop) or not (the service).
    pub report_status: bool,
    pub stage: ScanStage,
    /// The enabled targets of the current tick: (process name, class filter).
    pub targets: Vec<(String, String)>,
    pub next_target: usize,
    /// Whether some enabled target runs (false on a tick with blocking off).
    pub any_running: bool,
    /// Candidate windows of this tick, each once.
    pub candidates: Vec<isize>,
    pub next_candidate: usize,
    /// Process owning the current candidate.
    pub current_pid: u32,
    /// Snapshot of the current candidate, once captured.
    pub captured: Option<AdWindowSnapshot>,
    /// Kept windows still to check (alive, or process running).
    pub checks: Vec<AdWindowSnapshot>,
    pub next_check: usize,
    /// Windows to put back; no longer kept.
    pub restores: Vec<AdWindowSnapshot>,
    /// The processes reported ended during this tick.
    pub ended: Ghost<Set<u32>>,
    pub next_restore: usize,
    pub sleep_secs: u64,
}

/// The (process name, class filter) texts of the scanned targets.
pub open spec fn target_views(t: Seq<(String, String)>) -> Seq<(Seq<char>, Seq<char>)> {
    t.map_values(|x: (String, String)| (x.0@, x.1@))
}

/// The (process name, class filter) texts of the enabled targets, in order.
pub open spec fn enabled_views(t: Seq<TargetApp>) -> Seq<(Seq<char>, Seq<char>)>
    decreases t.len(),
{
    if t.len() == 0 {
        Seq::empty()
    } else if t.last().enabled {
        enabled_views(t.drop_last()).push((t.last().process_name@, t.last().ad_window_class@))
    } else {
        enabled_views(t.drop_last())
    }
}

/// The handles of a list of snapshots.
pub open spec fn handles(s: Seq<AdWindowSnapshot>) -> Seq<isize> {
    s.map_values(|x: AdWindowSnapshot| x.handle)
}

/// Whether a snapshot of this handle is kept.
pub open spec fn keeps(s: Seq<AdWindowSnapshot>, h: isize) -> bool {
    handles(s).contains(h)
}

/// The kept snapshots by handle.
pub open spec fn kept_map(s: Seq<AdWindowSnapshot>) -> Map<isize, AdWindowSnapshot> {
    Map::new(|h: isize| keeps(s, h), |h: isize| s[handles(s).index_of(h)])
}

/// Every snapshot that left the kept set `pre` (is not in `post`) is on the
/// restore list.
pub open spec fn released(pre: Map<isize, AdWindowSnapshot>, post: Map<isize, AdWindowSnapshot>, restores: Seq<AdWindowSnapshot>) -> bool {
    forall|h: isize| #[trigger] pre.dom().contains(h) && !post.dom().contains(h) ==> restores.contains(pre[h])
}

/// `post` extends `pre`: what was listed stays listed, in place.
pub open spec fn extends(pre: Seq<AdWindowSnapshot>, post: Seq<AdWindowSnapshot>) -> bool {
    pre.len() <= post.len() && forall|k: int| 0 <= k < pre.len() ==> #[trigger] post[k] == pre[k]
}

/// In a list of snapshots with distinct handles, each is the one kept for its handle.
proof fn lemma_kept_map_of_list(s: Seq<AdWindowSnapshot>)
    requires
        handles(s).no_duplicates(),
    ensures
        forall|j: int| 0 <= j < s.len() ==> keeps(s, #[trigger] s[j].handle) && kept_map(s)[s[j].handle] == s[j],
{
    assert forall|j: int| 0 <= j < s.len() implies keeps(s, #[trigger] s[j].handle) && kept_map(s)[s[j].handle] == s[j] by {
        let hs = handles(s);
        assert(hs[j] == s[j].handle);
        assert(hs.contains(s[j].handle));
        let w = hs.index_of(s[j].handle);
        assert(0 <= w < hs.len() && hs[w] == s[j].handle);
        if w != j {
            assert(hs[w] != hs[j]);
        }
    }
}

fn find_snapshot(v: &Vec<AdWindowSnapshot>, h: isize) -> (r: Option<usize>)
    requires
        handles(v@).no_duplicates(),
    ensures
        match r {
            Some(i) => i < v@.len() && v@[i as int].handle == h && handles(v@).index_of(h) == i,
            None => !keeps(v@, h),
        },
{
    let mut i: usize = 0;
    while i < v.len()
        invariant
            handles(v@).no_duplicates(),
            i <= v@.len(),
            forall|k: int| 0 <= k < i ==> handles(v@)[k] != h,
        decreases v@.len() - i,
    {
        if v[i].handle == h {
            proof {
                let hs = handles(v@);
                assert(hs[i as int] == h);
                assert(hs.contains(h));
                let j = hs.index_of(h);
                assert(0 <= j < hs.len() && hs[j] == h);
                if j != i {
                    assert(hs[j] != hs[i as int]);
                }
            }
            return Some(i);
        }
        i = i + 1;
    }
    None
}

proof fn lemma_remove_at(s: Seq<AdWindowSnapshot>, i: int)
    requires
        handles(s).no_duplicates(),
        0 <= i < s.len(),
    ensures
        handles(s.remove(i)).no_duplicates(),
        kept_map(s.remove(i)) == kept_map(s).remove(s[i].handle),
{
    let hs = handles(s);
    let n = s.remove(i);
    let nh = handles(n);
    assert(nh =~= hs.remove(i));
    assert forall|h: isize| #[trigger] nh.contains(h) == (hs.contains(h) && h != hs[i]) by {
        if nh.contains(h) {
            let k = choose|k: int| 0 <= k < nh.len() && nh[k] == h;
            if k < i {
                assert(hs[k] == h);
            } else {
                assert(hs[k + 1] == h);
            }
        }
        if hs.contains(h) && h != hs[i] {
            let k = choose|k: int| 0 <= k < hs.len() && hs[k] == h;
            if k < i {
                assert(nh[k] == h);
            } else {
                assert(nh[k - 1] == h);
            }
        }
    }
    assert forall|h: isize| #[trigger] nh.contains(h) implies n[nh.index_of(h)] == s[hs.index_of(h)] by {
        let k = nh.index_of(h);
        let j = hs.index_of(h);
        if k < i {
            assert(hs[k] == h);
            assert(k == j);
        } else {
            assert(hs[k + 1] == h);
            assert(k + 1 == j);
        }
    }
    assert(kept_map(n) =~= kept_map(s).remove(s[i].handle));
}

/// Forgets the snapshot of `h`, returning it.
fn take_snapshot(v: &mut Vec<AdWindowSnapshot>, h: isize) -> (r: Option<AdWindowSnapshot>)
    requires
        handles(old(v)@).no_duplicates(),
    ensures
        handles(final(v)@).no_duplicates(),
        kept_map(final(v)@) == kept_map(old(v)@).remove(h),
        r == (if keeps(old(v)@, h) { Some(kept_map(old(v)@)[h]) } else { None }),
{
    match find_snapshot(v, h) {
        Some(i) => {
            proof {
                lemma_remove_at(v@, i as int);
                assert(handles(v@)[i as int] == h);
                assert(keeps(v@, h));
                assert(kept_map(v@)[h] == v@[i as int]);
            }
            let s = v.remove(i);
            Some(s)
        },
        None => {
            assert(kept_map(v@) =~= kept_map(v@).remove(h));
            None
        },
    }
}

/// Keeps `s` as the snapshot of its handle.
fn put_snapshot(v: &mut Vec<AdWindowSnapshot>, s: AdWindowSnapshot)
    requires
        handles(old(v)@).no_duplicates(),
    ensures
        handles(final(v)@).no_duplicates(),
        kept_map(final(v)@) == kept_map(old(v)@).insert(s.handle, s),
{
    let _ = take_snapshot(v, s.handle);
    let ghost before = v@;
    assert(!kept_map(before).dom().contains(s.handle));
    assert(!keeps(before, s.handle));
    v.push(s);
    proof {
        let hs = handles(before);
        assert(!hs.contains(s.handle));
        let nh = handles(v@);
        assert(nh =~= hs.push(s.handle));
        assert forall|a: int, b: int| 0 <= a < nh.len() && 0 <= b < nh.len() && a != b implies nh[a] != nh[b] by {
            if a < hs.len() && b < hs.len() {
                assert(nh[a] == hs[a] && nh[b] == hs[b]);
            } else if a < hs.len() {
                assert(hs.contains(hs[a]));
            } else if b < hs.len() {
                assert(hs.contains(hs[b]));
            }
        }
        assert forall|h: isize| #[trigger] nh.contains(h) == (hs.contains(h) || h == s.handle) by {
            if nh.contains(h) {
                let k = choose|k: int| 0 <= k < nh.len() && nh[k] == h;
                if k < hs.len() {
                    assert(hs[k] == h);
                }
            }
            if hs.contains(h) {
                let k = choose|k: int| 0 <= k < hs.len() && hs[k] == h;
                assert(nh[k] == h);
            }
            if h == s.handle {
                assert(nh[hs.len() as int] == h);
            }
        }
        assert forall|h: isize| #[trigger] nh.contains(h) implies v@[nh.index_of(h)] == (if h == s.handle { s } else { before[hs.index_of(h)] }) by {
            let k = nh.index_of(h);
            assert(0 <= k < nh.len() && nh[k] == h);
            if h == s.handle {
                if k != hs.len() {
                    assert(nh[k] != nh[hs.len() as int]);
                }
            } else {
                let j = hs.index_of(h);
                assert(hs.contains(h));
                assert(nh[j] == h);
                if k != j {
                    assert(nh[k] != nh[j]);
                }
            }
        }
        assert(kept_map(v@) =~= kept_map(before).insert(s.handle, s));
        assert(kept_map(before).insert(s.handle, s) =~= kept_map(old(v)@).insert(s.handle, s));
    }
}

impl AdScanner {
    /// What holds at every stage.
    pub open spec fn base_ok(&self) -> bool {
        &&& handles(self.collapsed@).no_duplicates()
        &&& self.next_target <= self.targets@.len()
        &&& self.next_candidate <= self.candidates@.len()
        &&& self.next_check <= self.checks@.len()
        &&& self.next_restore <= self.restores@.len()
        &&& !self.report_status ==> self.last_running is None
        // While a target runs, only windows of processes reported ended are put back.
        &&& self.any_running ==> forall|k: int|
            0 <= k < self.restores@.len() ==> self.ended@.contains(#[trigger] self.restores@[k].process_id)
    }

    /// The scanner's consistency.
    pub open spec fn wf(&self) -> bool {
        &&& self.base_ok()
        &&& (self.stage == ScanStage::FindWindows || self.stage == ScanStage::TargetRunning)
            ==> self.next_target < self.targets@.len() && self.restores@.len() == 0
        &&& (self.stage == ScanStage::FindWindows || self.stage == ScanStage::TargetRunning || self.stage
            == ScanStage::AliveCheck) ==> self.next_candidate == 0
        &&& (self.stage == ScanStage::AliveCheck || self.stage == ScanStage::ProcessId || self.stage
            == ScanStage::CollapsedCheck || self.stage == ScanStage::Recollapse || self.stage == ScanStage::Capture
            || self.stage == ScanStage::CollapseCaptured || self.stage == ScanStage::Notified) ==> self.restores@.len() == 0
        &&& (self.stage == ScanStage::Status || self.stage == ScanStage::Idle) ==> self.next_restore == self.restores@.len()
        &&& self.stage == ScanStage::Status ==> self.last_running == Some(self.any_running)
        &&& self.stage == ScanStage::RestoreCheck ==> forall|j: int|
            self.next_check <= j < self.checks@.len() && keeps(self.collapsed@, #[trigger] self.checks@[j].handle)
                ==> kept_map(self.collapsed@)[self.checks@[j].handle] == self.checks@[j]
        &&& (self.stage == ScanStage::ProcessId || self.stage == ScanStage::CollapsedCheck
            || self.stage == ScanStage::Recollapse || self.stage == ScanStage::Capture
            || self.stage == ScanStage::CollapseCaptured || self.stage == ScanStage::Notified)
            ==> self.next_candidate < self.candidates@.len()
        &&& (self.stage == ScanStage::AliveCheck || self.stage == ScanStage::RestoreCheck)
            ==> self.next_check < self.checks@.len()
        &&& self.stage == ScanStage::Restore ==> self.next_restore < self.restores@.len()
        &&& (self.stage == ScanStage::RestoreCheck || self.stage == ScanStage::Restore || self.stage
            == ScanStage::Status || self.stage == ScanStage::Idle) ==> self.next_target == self.targets@.len()
            && self.next_candidate == self.candidates@.len()
        &&& (self.stage == ScanStage::AliveCheck || self.stage == ScanStage::ProcessId || self.stage
            == ScanStage::CollapsedCheck || self.stage == ScanStage::Recollapse || self.stage == ScanStage::Capture
            || self.stage == ScanStage::CollapseCaptured || self.stage == ScanStage::Notified) ==> self.next_target
            == self.targets@.len()
        &&& (self.stage == ScanStage::Recollapse || self.stage == ScanStage::CollapsedCheck)
            ==> kept_map(self.collapsed@).contains_key(self.candidates@[self.next_candidate as int])
            && kept_map(self.collapsed@)[self.candidates@[self.next_candidate as int]].process_id
            == self.current_pid
        &&& self.stage == ScanStage::CollapseCaptured ==> self.captured is Some
        &&& (self.stage == ScanStage::Restore || self.stage == ScanStage::Status || self.stage
            == ScanStage::Idle) && !self.any_running ==> self.collapsed@.len() == 0
        &&& (self.stage == ScanStage::Restore) ==> forall|k: int|
            self.next_restore <= k < self.restores@.len() ==> !keeps(
                self.collapsed@,
                #[trigger] self.restores@[k].handle,
            )
        &&& self.stage == ScanStage::RestoreCheck ==> self.any_running && forall|k: int|
            0 <= k < self.restores@.len() ==> !keeps(self.collapsed@, #[trigger] self.restores@[k].handle)
    }

    /// Which event answers the last action.
    pub open spec fn accepts(&self, e: ScanEvent) -> bool {
        match self.stage {
            ScanStage::Idle => e is Tick,
            ScanStage::TargetRunning | ScanStage::AliveCheck | ScanStage::RestoreCheck => e is Answer,
            ScanStage::FindWindows => e is Windows,
            ScanStage::ProcessId => e is ProcessId,
            ScanStage::CollapsedCheck => e is Collapsed,
            ScanStage::Capture => e is Captured,
            ScanStage::Recollapse | ScanStage::CollapseCaptured | ScanStage::Restore => e is Done,
            ScanStage::Notified | ScanStage::Status => e is Acknowledged,
        }
    }
}

pub open spec fn done_ok(e: ScanEvent) -> bool {
    match e {
        ScanEvent::Done(Ok(_)) => true,
        _ => false,
    }
}

/// What an action names: the target, window or process the scanner stands at.
/// The end of a tick comes only after every target was asked about and every
/// candidate window examined.
pub open spec fn action_fits(post: AdScanner, action: ScanAction) -> bool {
    match action {
        ScanAction::CheckTargetRunning { process_name } => post.stage == ScanStage::TargetRunning
            && post.next_target < post.targets@.len() && process_name@ == post.targets@[post.next_target as int].0@,
        ScanAction::FindAdWindows { process_name, class_filter } => post.stage == ScanStage::FindWindows
            && post.next_target < post.targets@.len() && process_name@ == post.targets@[post.next_target as int].0@
            && class_filter@ == post.targets@[post.next_target as int].1@,
        ScanAction::CheckWindowAlive { handle } => post.stage == ScanStage::AliveCheck && post.next_check
            < post.checks@.len() && handle == post.checks@[post.next_check as int].handle,
        ScanAction::ReadProcessId { handle } => post.stage == ScanStage::ProcessId && post.next_candidate
            < post.candidates@.len() && handle == post.candidates@[post.next_candidate as int],
        ScanAction::CheckCollapsed { handle } => post.stage == ScanStage::CollapsedCheck && post.next_candidate
            < post.candidates@.len() && handle == post.candidates@[post.next_candidate as int],
        ScanAction::Collapse { handle } => post.stage == ScanStage::Recollapse && post.next_candidate
            < post.candidates@.len() && handle == post.candidates@[post.next_candidate as int],
        ScanAction::Capture { handle } => post.stage == ScanStage::Capture && post.next_candidate
            < post.candidates@.len() && handle == post.candidates@[post.next_candidate as int],
        ScanAction::CollapseCaptured { handle } => post.stage == ScanStage::CollapseCaptured
            && post.next_candidate < post.candidates@.len() && handle == post.candidates@[post.next_candidate as int],
        ScanAction::CheckProcessRunning { process_id } => post.stage == ScanStage::RestoreCheck && post.next_check
            < post.checks@.len() && process_id == post.checks@[post.next_check as int].process_id,
        ScanAction::RestoreWindow { snapshot } => post.next_target == post.targets@.len() && post.next_candidate
            == post.candidates@.len() && post.stage == ScanStage::Restore && post.next_restore < post.restores@.len()
            && snapshot == post.restores@[post.next_restore as int],
        ScanAction::NotifyTargetStatus { .. } => post.stage == ScanStage::Status && post.next_target
            == post.targets@.len() && post.next_candidate == post.candidates@.len() && post.next_restore
            == post.restores@.len(),
        ScanAction::Sleep { .. } => post.stage == ScanStage::Idle && post.next_target == post.targets@.len()
            && post.next_candidate == post.candidates@.len() && post.next_restore == post.restores@.len(),
        ScanAction::NotifyAdBlocked => post.stage == ScanStage::Notified,
    }
}

/// The events that answer `action`.
pub open spec fn scan_answers(action: ScanAction, event: ScanEvent) -> bool {
    match action {
        ScanAction::CheckTargetRunning { .. } | ScanAction::CheckWindowAlive { .. }
        | ScanAction::CheckProcessRunning { .. } => event is Answer,
        ScanAction::FindAdWindows { .. } => event is Windows,
        ScanAction::ReadProcessId { .. } => event is ProcessId,
        ScanAction::CheckCollapsed { .. } => event is Collapsed,
        ScanAction::Capture { .. } => event is Captured,
        ScanAction::Collapse { .. } | ScanAction::CollapseCaptured { .. } | ScanAction::RestoreWindow { .. } => event is Done,
        ScanAction::NotifyAdBlocked | ScanAction::NotifyTargetStatus { .. } => event is Acknowledged,
        ScanAction::Sleep { .. } => event is Tick,
    }
}

/// After a step, the scanner takes exactly the answers to the action it
/// returned: the next tick after `Sleep`, an acknowledgement after a notice.
pub proof fn lemma_scanner_takes_the_answer(pre: AdScanner, post: AdScanner, event: ScanEvent, action: ScanAction, answer: ScanEvent)
    requires
        scan_post(pre, post, event, action),
    ensures
        post.accepts(answer) == scan_answers(action, answer),
{
}

/// With status reporting on, a tick never ends with an untold status: when the
/// scanner sleeps, the status last told is whether a target runs in this tick,
/// and a told status is always the tick's own. So a target that starts (or
/// stops) between two ticks is told at the end of the next tick.
pub proof fn lemma_status_told_before_sleep(pre: AdScanner, post: AdScanner, event: ScanEvent, action: ScanAction)
    requires
        scan_post(pre, post, event, action),
        pre.report_status,
    ensures
        action is Sleep ==> post.last_running == Some(post.any_running),
        action matches ScanAction::NotifyTargetStatus { running } ==> running == post.any_running
            && pre.last_running != Some(running),
{
}

/// What one scan step guarantees.
pub open spec fn scan_post(pre: AdScanner, post: AdScanner, event: ScanEvent, action: ScanAction) -> bool {
    &&& post.report_status == pre.report_status
    // A window is put back only once: its snapshot is no longer kept.
    &&& action matches ScanAction::RestoreWindow { snapshot } ==> !keeps(post.collapsed@, snapshot.handle)
    // A window is collapsed again only when its snapshot is kept for the process
    // that owns it now.
    &&& action matches ScanAction::Collapse { handle } ==> kept_map(post.collapsed@).contains_key(handle)
        && kept_map(post.collapsed@)[handle].process_id == post.current_pid
    // A new snapshot is kept exactly when its window was collapsed, and that is told.
    &&& pre.stage == ScanStage::CollapseCaptured ==> (done_ok(event) ==> kept_map(post.collapsed@)
        == kept_map(pre.collapsed@).insert(pre.captured->0.handle, pre.captured->0)
        && action is NotifyAdBlocked)
    &&& action is NotifyAdBlocked ==> pre.stage == ScanStage::CollapseCaptured
    // The status is told only when it changed, and then remembered.
    &&& action matches ScanAction::NotifyTargetStatus { running } ==> pre.report_status
        && post.last_running == Some(running) && pre.last_running != Some(running)
    // With status reporting on, the status a tick ends with is told before the
    // scanner sleeps: it is the tick's own.
    &&& action matches ScanAction::NotifyTargetStatus { running } ==> running == post.any_running
    &&& (post.report_status && action is Sleep) ==> post.last_running == Some(post.any_running)
    // When no target runs (or blocking is off), every kept window is put back
    // before the scanner sleeps.
    &&& (action is Sleep && !post.any_running) ==> post.collapsed@.len() == 0
    // While a target runs, a window is put back only when its process was
    // reported ended in this tick.
    &&& action matches ScanAction::RestoreWindow { snapshot } ==> !post.any_running || post.ended@.contains(
        snapshot.process_id,
    )
    // The action names what the scanner stands at.
    &&& action_fits(post, action)
    // A target is running exactly when one was reported running in this tick.
    &&& post.any_running == ((pre.stage != ScanStage::Idle && pre.any_running) || (pre.stage
        == ScanStage::TargetRunning && (event matches ScanEvent::Answer(r) && r)))
    // A tick with blocking on asks about the enabled targets, in order.
    &&& pre.stage == ScanStage::Idle ==> (event matches ScanEvent::Tick { enabled, targets, .. } ==> target_views(
        post.targets@,
    ) == (if enabled {
        enabled_views(targets@)
    } else {
        Seq::empty()
    }))
    // A tick starts at the first target; with blocking on and a target enabled,
    // its first question is whether the first enabled target runs.
    &&& pre.stage == ScanStage::Idle ==> post.next_target == 0
    &&& pre.stage == ScanStage::Idle ==> (event matches ScanEvent::Tick { enabled, targets, .. } ==> (
    (enabled && enabled_views(targets@).len() > 0) ==> action is CheckTargetRunning))
    // A target not running, or whose windows were listed, is followed by the next
    // one while targets are left; the scanner moves past a target only once it was
    // asked about.
    &&& ((pre.stage == ScanStage::TargetRunning && (event matches ScanEvent::Answer(r) && !r)) || pre.stage
        == ScanStage::FindWindows) ==> post.next_target == pre.next_target + 1 && (post.next_target
        < post.targets@.len() ==> action is CheckTargetRunning)
    &&& (pre.stage != ScanStage::Idle && post.next_target != pre.next_target) ==> (pre.stage
        == ScanStage::TargetRunning || pre.stage == ScanStage::FindWindows)
    // The scanner sleeps for the interval of the last tick (a second when it is zero).
    &&& post.sleep_secs == (if pre.stage == ScanStage::Idle {
        match event {
            ScanEvent::Tick { interval_secs, .. } => if interval_secs == 0 {
                1u64
            } else {
                interval_secs as u64
            },
            _ => pre.sleep_secs,
        }
    } else {
        pre.sleep_secs
    })
    &&& action matches ScanAction::Sleep { secs } ==> secs == post.sleep_secs
    // A kept window leaves the kept set only to be put back (it goes on the
    // restore list), or when it was found closed, or when its handle now belongs
    // to another process.
    &&& forall|h: isize| #[trigger] kept_map(pre.collapsed@).dom().contains(h) && !kept_map(post.collapsed@).dom().contains(h)
        ==> post.restores@.contains(kept_map(pre.collapsed@)[h]) || (pre.stage == ScanStage::AliveCheck && (event matches ScanEvent::Answer(a) && !a)
        && h == pre.checks@[pre.next_check as int].handle) || (pre.stage == ScanStage::ProcessId && (event matches ScanEvent::ProcessId(Ok(pid))
        && kept_map(pre.collapsed@)[h].process_id != pid) && h == pre.candidates@[pre.next_candidate as int])
    // Within a tick the restore list only grows; each window on it is handed out
    // in turn, from the first, and the tick ends only once all were.
    &&& pre.stage != ScanStage::Idle ==> extends(pre.restores@, post.restores@)
    &&& (post.stage == ScanStage::Restore && pre.stage != ScanStage::Restore) ==> post.next_restore == 0
    &&& pre.stage == ScanStage::Restore ==> post.restores == pre.restores && post.next_restore == pre.next_restore + 1
    // The window of a process reported ended is no longer kept.
    &&& (pre.stage == ScanStage::RestoreCheck && (event matches ScanEvent::Answer(r) && !r)) ==> !keeps(
        post.collapsed@,
        pre.checks@[pre.next_check as int].handle,
    )
    // A kept window found closed is forgotten.
    &&& (pre.stage == ScanStage::AliveCheck && (event matches ScanEvent::Answer(alive) && !alive)) ==> !keeps(
        post.collapsed@,
        pre.checks@[pre.next_check as int].handle,
    )
    // Within a tick the candidate windows only grow, every window listed becomes
    // one, and targets and candidates are taken one after the other.
    &&& pre.stage != ScanStage::Idle ==> {
        &&& pre.candidates@.len() <= post.candidates@.len()
        &&& forall|k: int| 0 <= k < pre.candidates@.len() ==> post.candidates@[k] == #[trigger] pre.candidates@[k]
        &&& pre.next_candidate <= post.next_candidate <= pre.next_candidate + 1
        &&& pre.next_target <= post.next_target <= pre.next_target + 1
    }
    &&& pre.stage == ScanStage::FindWindows ==> (event matches ScanEvent::Windows(Ok(found)) ==> forall|h: isize|
        found@.contains(h) ==> post.candidates@.contains(h))
    // A running target's windows are listed.
    &&& (pre.stage == ScanStage::TargetRunning && (event matches ScanEvent::Answer(r) && r)) ==> action is FindAdWindows
    // A candidate kept for the process that owns it now is checked; any other is
    // captured (a snapshot kept for another process is dropped first).
    &&& pre.stage == ScanStage::ProcessId ==> (event matches ScanEvent::ProcessId(Ok(pid)) ==> (if kept_map(
        pre.collapsed@,
    ).contains_key(pre.candidates@[pre.next_candidate as int]) && kept_map(pre.collapsed@)[pre.candidates@[pre.next_candidate as int]].process_id
        == pid {
        action is CheckCollapsed
    } else {
        action is Capture && !keeps(post.collapsed@, pre.candidates@[pre.next_candidate as int])
    }))
    // A kept window found open again is collapsed again; a captured one is collapsed.
    &&& (pre.stage == ScanStage::CollapsedCheck && (event matches ScanEvent::Collapsed(Ok(c)) && !c)) ==> action is Collapse
    &&& (pre.stage == ScanStage::Capture && event matches ScanEvent::Captured(Ok(_))) ==> action is CollapseCaptured
    // The processes reported ended are recorded.
    &&& post.ended@ == (if pre.stage == ScanStage::Idle {
        Set::empty()
    } else if pre.stage == ScanStage::RestoreCheck && (event matches ScanEvent::Answer(r) && !r) {
        pre.ended@.insert(pre.checks@[pre.next_check as int].process_id)
    } else {
        pre.ended@
    })
}

/// What the continuations of a step guarantee about the action they return.
pub open spec fn cont_ok(pre: AdScanner, post: AdScanner, action: ScanAction) -> bool {
    &&& cont_core(pre, post, action)
    &&& post.next_candidate == pre.next_candidate
}

/// What every continuation keeps, wherever it leaves the candidate cursor.
pub open spec fn cont_core(pre: AdScanner, post: AdScanner, action: ScanAction) -> bool {
    &&& post.report_status == pre.report_status
    &&& !(action is Collapse)
    &&& !(action is NotifyAdBlocked)
    &&& action matches ScanAction::RestoreWindow { snapshot } ==> !keeps(post.collapsed@, snapshot.handle)
    &&& action matches ScanAction::NotifyTargetStatus { running } ==> pre.report_status
        && post.last_running == Some(running) && pre.last_running != Some(running)
    &&& !(action is NotifyTargetStatus) ==> post.last_running == pre.last_running
    &&& action matches ScanAction::NotifyTargetStatus { running } ==> running == post.any_running
    &&& (post.report_status && action is Sleep) ==> post.last_running == Some(post.any_running)
    &&& (action is Sleep && !post.any_running) ==> post.collapsed@.len() == 0
    &&& post.stage != ScanStage::CollapseCaptured
    &&& action matches ScanAction::RestoreWindow { snapshot } ==> !post.any_running || post.ended@.contains(
        snapshot.process_id,
    )
    &&& action_fits(post, action)
    &&& post.any_running == pre.any_running
    &&& post.targets == pre.targets
    &&& post.ended == pre.ended
    &&& post.candidates == pre.candidates
    &&& post.next_target == pre.next_target
    &&& post.sleep_secs == pre.sleep_secs
    &&& action matches ScanAction::Sleep { secs } ==> secs == post.sleep_secs
    &&& forall|h: isize| #[trigger] keeps(post.collapsed@, h) ==> keeps(pre.collapsed@, h)
    &&& kept_map(post.collapsed@).submap_of(kept_map(pre.collapsed@))
    &&& released(kept_map(pre.collapsed@), kept_map(post.collapsed@), post.restores@)
    &&& extends(pre.restores@, post.restores@)
    &&& post.stage == ScanStage::Restore ==> post.next_restore == 0
}

fn copy_text(s: &String) -> (r: String)
    ensures
        r@ == s@,
{
    crate::text::string_from(crate::text::chars_of(s.as_str()).as_slice())
}

fn copy_snapshots(v: &Vec<AdWindowSnapshot>) -> (r: Vec<AdWindowSnapshot>)
    ensures
        r@ == v@,
{
    let mut r: Vec<AdWindowSnapshot> = Vec::new();
    let mut i: usize = 0;
    while i < v.len()
        invariant
            i <= v@.len(),
            r@ == v@.subrange(0, i as int),
        decreases v@.len() - i,
    {
        r.push(v[i]);
        i = i + 1;
        assert(r@ =~= v@.subrange(0, i as int));
    }
    assert(v@.subrange(0, v@.len() as int) =~= v@);
    r
}

impl AdScanner {
    /// A scanner with nothing collapsed; `report_status` tells whether status
    /// changes are announced.
    pub fn new(report_status: bool) -> (r: AdScanner)
        ensures
            r.wf(),
            r.stage == ScanStage::Idle,
            r.collapsed@.len() == 0,
            r.last_running is None,
            r.report_status == report_status,
    {
        AdScanner {
            collapsed: Vec::new(),
            last_running: None,
            report_status,
            stage: ScanStage::Idle,
            targets: Vec::new(),
            next_target: 0,
            any_running: false,
            candidates: Vec::new(),
            next_candidate: 0,
            current_pid: 0,
            captured: None,
            checks: Vec::new(),
            next_check: 0,
            restores: Vec::new(),
            next_restore: 0,
            ended: Ghost(Set::empty()),
            sleep_secs: 1,
        }
    }

    /// Whether `event` answers the last action; `step` takes only such events.
    pub fn expects(&self, event: &ScanEvent) -> (r: bool)
        ensures
            r == self.accepts(*event),
    {
        match self.stage {
            ScanStage::Idle => matches!(event, ScanEvent::Tick { .. }),
            ScanStage::TargetRunning | ScanStage::AliveCheck | ScanStage::RestoreCheck => matches!(event, ScanEvent::Answer(_)),
            ScanStage::FindWindows => matches!(event, ScanEvent::Windows(_)),
            ScanStage::ProcessId => matches!(event, ScanEvent::ProcessId(_)),
            ScanStage::CollapsedCheck => matches!(event, ScanEvent::Collapsed(_)),
            ScanStage::Capture => matches!(event, ScanEvent::Captured(_)),
            ScanStage::Recollapse | ScanStage::CollapseCaptured | ScanStage::Restore => matches!(event, ScanEvent::Done(_)),
            ScanStage::Notified | ScanStage::Status => matches!(event, ScanEvent::Acknowledged),
        }
    }

    /// Ends the tick: tells the status when it changed, then sleeps.
    fn finish_tick(&mut self) -> (action: ScanAction)
        requires
            old(self).next_restore == old(self).restores@.len(),
            old(self).next_target == old(self).targets@.len(),
            old(self).next_candidate == old(self).candidates@.len(),
            old(self).base_ok(),
            !old(self).any_running ==> old(self).collapsed@.len() == 0,
        ensures
            final(self).wf(),
            cont_ok(*old(self), *final(self), action),
            final(self).collapsed == old(self).collapsed,
            final(self).any_running == old(self).any_running,
            final(self).restores == old(self).restores,
            final(self).next_restore == old(self).next_restore,
    {
        let changed = match self.last_running {
            Some(r) => r != self.any_running,
            None => true,
        };
        if self.report_status && changed {
            self.last_running = Some(self.any_running);
            self.stage = ScanStage::Status;
            ScanAction::NotifyTargetStatus { running: self.any_running }
        } else {
            self.stage = ScanStage::Idle;
            ScanAction::Sleep { secs: self.sleep_secs }
        }
    }

    /// Puts back the windows on the restore list, then ends the tick.
    fn begin_restores(&mut self) -> (action: ScanAction)
        requires
            old(self).next_target == old(self).targets@.len(),
            old(self).next_candidate == old(self).candidates@.len(),
            old(self).base_ok(),
            !old(self).any_running ==> old(self).collapsed@.len() == 0,
            forall|k: int| 0 <= k < old(self).restores@.len() ==> !keeps(old(self).collapsed@, #[trigger] old(self).restores@[k].handle),
        ensures
            final(self).wf(),
            cont_ok(*old(self), *final(self), action),
    {
        self.next_restore = 0;
        if self.restores.len() > 0 {
            self.stage = ScanStage::Restore;
            ScanAction::RestoreWindow { snapshot: self.restores[0] }
        } else {
            self.finish_tick()
        }
    }

    /// Decides which kept windows to put back: all of them when no target runs,
    /// else those whose process ended (asked one by one).
    #[verifier::spinoff_prover]
    fn begin_restore_phase(&mut self) -> (action: ScanAction)
        requires
            old(self).restores@.len() == 0,
            old(self).next_target == old(self).targets@.len(),
            old(self).next_candidate == old(self).candidates@.len(),
            old(self).base_ok(),
        ensures
            final(self).wf(),
            cont_ok(*old(self), *final(self), action),
    {
        let ghost kept = self.collapsed@;
        proof {
            lemma_kept_map_of_list(kept);
        }
        if !self.any_running {
            let all = copy_snapshots(&self.collapsed);
            self.collapsed = Vec::new();
            proof {
                assert forall|h: isize| #[trigger] kept_map(kept).dom().contains(h) implies all@.contains(kept_map(kept)[h]) by {
                    let w = handles(kept).index_of(h);
                    assert(handles(kept).contains(h));
                    assert(0 <= w < kept.len());
                    assert(all@[w] == kept_map(kept)[h]);
                }
                assert(kept_map(self.collapsed@) =~= Map::<isize, AdWindowSnapshot>::empty());
            }
            assert(handles(self.collapsed@) =~= Seq::<isize>::empty());
            self.restores = all;
            self.next_restore = 0;
            let ghost mid = self.restores@;
            let action = self.begin_restores();
            proof {
                assert forall|h: isize| #[trigger] kept_map(kept).dom().contains(h) && !kept_map(self.collapsed@).dom().contains(h)
                    implies self.restores@.contains(kept_map(kept)[h]) by {
                    let w = choose|w: int| 0 <= w < mid.len() && mid[w] == kept_map(kept)[h];
                    assert(self.restores@[w] == mid[w]);
                }
            }
            return action;
        }
        self.restores = Vec::new();
        self.next_restore = 0;
        self.checks = copy_snapshots(&self.collapsed);
        self.next_check = 0;
        if self.checks.len() > 0 {
            self.stage = ScanStage::RestoreCheck;
            ScanAction::CheckProcessRunning { process_id: self.checks[0].process_id }
        } else {
            self.begin_restores()
        }
    }

    /// Moves to the candidate at `next_candidate`, or on to the restore phase.
    fn visit_candidate(&mut self) -> (action: ScanAction)
        requires
            old(self).restores@.len() == 0,
            old(self).next_target == old(self).targets@.len(),
            old(self).base_ok(),
        ensures
            final(self).wf(),
            cont_ok(*old(self), *final(self), action),
    {
        if self.next_candidate < self.candidates.len() {
            self.stage = ScanStage::ProcessId;
            ScanAction::ReadProcessId { handle: self.candidates[self.next_candidate] }
        } else {
            self.begin_restore_phase()
        }
    }

    /// Moves past the current candidate.
    fn next_candidate_step(&mut self) -> (action: ScanAction)
        requires
            old(self).restores@.len() == 0,
            old(self).next_target == old(self).targets@.len(),
            old(self).base_ok(),
            old(self).next_candidate < old(self).candidates@.len(),
        ensures
            final(self).wf(),
            cont_core(*old(self), *final(self), action),
            final(self).next_candidate == old(self).next_candidate + 1,
    {
        let n = self.candidates.len();
        assert(self.next_candidate < n);
        self.next_candidate = self.next_candidate + 1;
        self.visit_candidate()
    }

    /// Checks the kept window at `next_check` for life, or goes on to the candidates.
    fn visit_alive_check(&mut self) -> (action: ScanAction)
        requires
            old(self).restores@.len() == 0,
            old(self).next_target == old(self).targets@.len(),
            old(self).next_candidate == 0,
            old(self).base_ok(),
        ensures
            final(self).wf(),
            cont_ok(*old(self), *final(self), action),
    {
        if self.next_check < self.checks.len() {
            self.stage = ScanStage::AliveCheck;
            ScanAction::CheckWindowAlive { handle: self.checks[self.next_check].handle }
        } else {
            self.next_candidate = 0;
            self.visit_candidate()
        }
    }

    /// Asks about the target at `next_target`, or goes on to the kept windows.
    fn visit_target(&mut self) -> (action: ScanAction)
        requires
            old(self).base_ok(),
            old(self).next_candidate == 0,
            old(self).restores@.len() == 0,
        ensures
            final(self).wf(),
            cont_ok(*old(self), *final(self), action),
            old(self).next_target < old(self).targets@.len() ==> action is CheckTargetRunning,
    {
        if self.next_target < self.targets.len() {
            self.stage = ScanStage::TargetRunning;
            ScanAction::CheckTargetRunning { process_name: copy_text(&self.targets[self.next_target].0) }
        } else {
            self.checks = copy_snapshots(&self.collapsed);
            self.next_check = 0;
            self.visit_alive_check()
        }
    }

    /// Adds candidate windows, each handle once.
    fn add_candidates(&mut self, found: &Vec<isize>)
        ensures
            final(self).candidates@.len() >= old(self).candidates@.len(),
            final(self).candidates@.subrange(0, old(self).candidates@.len() as int) == old(self).candidates@,
            final(self).next_candidate == old(self).next_candidate,
            final(self).collapsed == old(self).collapsed,
            final(self).targets == old(self).targets,
            final(self).next_target == old(self).next_target,
            final(self).checks == old(self).checks,
            final(self).next_check == old(self).next_check,
            final(self).restores == old(self).restores,
            final(self).next_restore == old(self).next_restore,
            final(self).ended == old(self).ended,
            final(self).last_running == old(self).last_running,
            final(self).report_status == old(self).report_status,
            final(self).any_running == old(self).any_running,
            final(self).stage == old(self).stage,
            final(self).sleep_secs == old(self).sleep_secs,
            forall|h: isize| found@.contains(h) ==> final(self).candidates@.contains(h),
    {
        let mut i: usize = 0;
        while i < found.len()
            invariant
                i <= found@.len(),
                self.candidates@.len() >= old(self).candidates@.len(),
                self.candidates@.subrange(0, old(self).candidates@.len() as int) == old(self).candidates@,
                self.next_candidate == old(self).next_candidate,
                self.collapsed == old(self).collapsed,
                self.targets == old(self).targets,
                self.next_target == old(self).next_target,
                self.checks == old(self).checks,
                self.next_check == old(self).next_check,
                self.restores == old(self).restores,
                self.next_restore == old(self).next_restore,
                self.ended == old(self).ended,
                self.last_running == old(self).last_running,
                self.report_status == old(self).report_status,
                self.any_running == old(self).any_running,
                self.stage == old(self).stage,
                self.sleep_secs == old(self).sleep_secs,
                forall|k: int| 0 <= k < i ==> self.candidates@.contains(#[trigger] found@[k]),
            decreases found@.len() - i,
        {
            let h = found[i];
            let mut known = false;
            let mut j: usize = 0;
            while j < self.candidates.len()
                invariant
                    j <= self.candidates@.len(),
                    known ==> self.candidates@.contains(h),
                decreases self.candidates@.len() - j,
            {
                if self.candidates[j] == h {
                    known = true;
                }
                j = j + 1;
            }
            let ghost before = self.candidates@;
            if !known {
                self.candidates.push(h);
                assert(self.candidates@[before.len() as int] == h);
                assert(self.candidates@.subrange(0, old(self).candidates@.len() as int) =~= before.subrange(
                    0,
                    old(self).candidates@.len() as int,
                ));
            }
            proof {
                assert forall|k: int| 0 <= k < i + 1 implies self.candidates@.contains(#[trigger] found@[k]) by {
                    if k < i {
                        let t = choose|t: int| 0 <= t < before.len() && before[t] == found@[k];
                        assert(self.candidates@[t] == found@[k]);
                    }
                }
            }
            i = i + 1;
        }
        proof {
            assert forall|h: isize| found@.contains(h) implies self.candidates@.contains(h) by {
                let k = choose|k: int| 0 <= k < found@.len() && found@[k] == h;
                assert(self.candidates@.contains(found@[k]));
            }
        }
    }
}

impl AdScanner {
    /// Takes the answer to the last action and returns the next one.
    pub fn step(&mut self, event: ScanEvent) -> (action: ScanAction)
        requires
            old(self).wf(),
            old(self).accepts(event),
        ensures
            final(self).wf(),
            scan_post(*old(self), *final(self), event, action),
    {
        match self.stage {
            ScanStage::Idle => self.on_tick(event),
            ScanStage::TargetRunning => self.on_target_running(event),
            ScanStage::FindWindows => self.on_windows(event),
            ScanStage::AliveCheck => self.on_alive(event),
            ScanStage::ProcessId => self.on_process_id(event),
            ScanStage::CollapsedCheck => self.on_collapsed(event),
            ScanStage::Recollapse => self.on_recollapsed(event),
            ScanStage::Capture => self.on_captured(event),
            ScanStage::CollapseCaptured => self.on_collapse_captured(event),
            ScanStage::Notified => self.on_notified(event),
            ScanStage::RestoreCheck => self.on_restore_check(event),
            ScanStage::Restore => self.on_restored(event),
            ScanStage::Status => self.on_status(event),
        }
    }

    fn on_tick(&mut self, event: ScanEvent) -> (action: ScanAction)
        requires
            old(self).wf(),
            old(self).stage == ScanStage::Idle,
            old(self).accepts(event),
        ensures
            final(self).wf(),
            scan_post(*old(self), *final(self), event, action),
    {
        match event {
            ScanEvent::Tick { enabled, targets, interval_secs } => {
                self.sleep_secs = if interval_secs == 0 {
                    1
                } else {
                    interval_secs as u64
                };
                self.any_running = false;
                self.candidates = Vec::new();
                self.next_candidate = 0;
                self.captured = None;
                self.checks = Vec::new();
                self.next_check = 0;
                self.restores = Vec::new();
                self.next_restore = 0;
                self.ended = Ghost(Set::empty());
                self.targets = Vec::new();
                self.next_target = 0;
                assert(target_views(self.targets@) =~= Seq::empty());
                if !enabled {
                    return self.begin_restore_phase();
                }
                let mut i: usize = 0;
                while i < targets.len()
                    invariant
                        i <= targets@.len(),
                        self.next_target == 0,
                        self.base_ok(),
                        self.restores@.len() == 0,
                        self.ended@ == Set::<u32>::empty(),
                        target_views(self.targets@) == enabled_views(targets@.subrange(0, i as int)),
                        !self.any_running,
                        self.report_status == old(self).report_status,
                        self.last_running == old(self).last_running,
                        self.stage == old(self).stage,
                        self.collapsed == old(self).collapsed,
                        self.next_candidate == 0,
                        self.sleep_secs == (if interval_secs == 0 {
                            1u64
                        } else {
                            interval_secs as u64
                        }),
                    decreases targets@.len() - i,
                {
                    let ghost before = self.targets@;
                    if targets[i].enabled {
                        let name = copy_text(&targets[i].process_name);
                        let class = copy_text(&targets[i].ad_window_class);
                        self.targets.push((name, class));
                        assert(target_views(self.targets@) =~= target_views(before).push(
                            (targets@[i as int].process_name@, targets@[i as int].ad_window_class@),
                        ));
                    }
                    proof {
                        let next = targets@.subrange(0, i + 1);
                        assert(next.drop_last() =~= targets@.subrange(0, i as int));
                    }
                    i = i + 1;
                }
                assert(targets@.subrange(0, targets@.len() as int) =~= targets@);
                self.visit_target()
            },
            _ => {
                proof {
                    assert(false);
                }
                ScanAction::Sleep { secs: 1 }
            },
        }
    }

    fn on_target_running(&mut self, event: ScanEvent) -> (action: ScanAction)
        requires
            old(self).wf(),
            old(self).stage == ScanStage::TargetRunning,
            old(self).accepts(event),
        ensures
            final(self).wf(),
            scan_post(*old(self), *final(self), event, action),
    {
        match event {
            ScanEvent::Answer(running) => {
                let t = self.next_target;
                if running {
                    self.any_running = true;
                    self.stage = ScanStage::FindWindows;
                    ScanAction::FindAdWindows {
                        process_name: copy_text(&self.targets[t].0),
                        class_filter: copy_text(&self.targets[t].1),
                    }
                } else {
                    let n = self.targets.len();
                    assert(t < n);
                    self.next_target = t + 1;
                    self.visit_target()
                }
            },
            _ => {
                proof {
                    assert(false);
                }
                ScanAction::Sleep { secs: 1 }
            },
        }
    }

    fn on_windows(&mut self, event: ScanEvent) -> (action: ScanAction)
        requires
            old(self).wf(),
            old(self).stage == ScanStage::FindWindows,
            old(self).accepts(event),
        ensures
            final(self).wf(),
            scan_post(*old(self), *final(self), event, action),
    {
        match event {
            ScanEvent::Windows(Ok(found)) => {
                self.add_candidates(&found);
                let n = self.targets.len();
                assert(self.next_target < n);
                self.next_target = self.next_target + 1;
                self.visit_target()
            },
            ScanEvent::Windows(Err(_)) => {
                let n = self.targets.len();
                assert(self.next_target < n);
                self.next_target = self.next_target + 1;
                self.visit_target()
            },
            _ => {
                proof {
                    assert(false);
                }
                ScanAction::Sleep { secs: 1 }
            },
        }
    }

    #[verifier::spinoff_prover]
    fn on_alive(&mut self, event: ScanEvent) -> (action: ScanAction)
        requires
            old(self).wf(),
            old(self).stage == ScanStage::AliveCheck,
            old(self).accepts(event),
        ensures
            final(self).wf(),
            scan_post(*old(self), *final(self), event, action),
    {
        match event {
            ScanEvent::Answer(alive) => {
                let k = self.next_check;
                if !alive {
                    let h = self.checks[k].handle;
                    let _ = take_snapshot(&mut self.collapsed, h);
                    assert(!kept_map(self.collapsed@).dom().contains(h));
                }
                let n = self.checks.len();
                assert(k < n);
                self.next_check = k + 1;
                let ghost mid = *self;
                let action = self.visit_alive_check();
                proof {
                    let pre = *old(self);
                    assert forall|h: isize| #[trigger] kept_map(pre.collapsed@).dom().contains(h) && !kept_map(
                        self.collapsed@,
                    ).dom().contains(h) && !(!alive && h == pre.checks@[pre.next_check as int].handle)
                        implies self.restores@.contains(kept_map(pre.collapsed@)[h]) by {
                        assert(kept_map(mid.collapsed@).dom().contains(h));
                        assert(kept_map(mid.collapsed@)[h] == kept_map(pre.collapsed@)[h]);
                    }
                }
                action
            },
            _ => {
                proof {
                    assert(false);
                }
                ScanAction::Sleep { secs: 1 }
            },
        }
    }

    fn on_process_id(&mut self, event: ScanEvent) -> (action: ScanAction)
        requires
            old(self).wf(),
            old(self).stage == ScanStage::ProcessId,
            old(self).accepts(event),
        ensures
            final(self).wf(),
            scan_post(*old(self), *final(self), event, action),
    {
        match event {
            ScanEvent::ProcessId(Ok(pid)) => {
                let c = self.candidates[self.next_candidate];
                self.current_pid = pid;
                let ghost kept = self.collapsed@;
                match find_snapshot(&self.collapsed, c) {
                    Some(i) => {
                        proof {
                            assert(handles(kept)[i as int] == c);
                            assert(keeps(kept, c));
                            assert(kept_map(kept).contains_key(c));
                            assert(kept_map(kept)[c] == kept[i as int]);
                        }
                        if self.collapsed[i].process_id != pid {
                            let _ = take_snapshot(&mut self.collapsed, c);
                            assert(!kept_map(self.collapsed@).contains_key(c));
                            self.stage = ScanStage::Capture;
                            ScanAction::Capture { handle: c }
                        } else {
                            proof {
                                assert(handles(self.collapsed@)[i as int] == c);
                                assert(keeps(self.collapsed@, c));
                            }
                            self.stage = ScanStage::CollapsedCheck;
                            ScanAction::CheckCollapsed { handle: c }
                        }
                    },
                    None => {
                        assert(!kept_map(kept).contains_key(c));
                        self.stage = ScanStage::Capture;
                        ScanAction::Capture { handle: c }
                    },
                }
            },
            ScanEvent::ProcessId(Err(_)) => self.next_candidate_step(),
            _ => {
                proof {
                    assert(false);
                }
                ScanAction::Sleep { secs: 1 }
            },
        }
    }

    fn on_collapsed(&mut self, event: ScanEvent) -> (action: ScanAction)
        requires
            old(self).wf(),
            old(self).stage == ScanStage::CollapsedCheck,
            old(self).accepts(event),
        ensures
            final(self).wf(),
            scan_post(*old(self), *final(self), event, action),
    {
        match event {
            ScanEvent::Collapsed(Ok(false)) => {
                self.stage = ScanStage::Recollapse;
                ScanAction::Collapse { handle: self.candidates[self.next_candidate] }
            },
            ScanEvent::Collapsed(_) => self.next_candidate_step(),
            _ => {
                proof {
                    assert(false);
                }
                ScanAction::Sleep { secs: 1 }
            },
        }
    }

    fn on_recollapsed(&mut self, event: ScanEvent) -> (action: ScanAction)
        requires
            old(self).wf(),
            old(self).stage == ScanStage::Recollapse,
            old(self).accepts(event),
        ensures
            final(self).wf(),
            scan_post(*old(self), *final(self), event, action),
    {
        self.next_candidate_step()
    }

    fn on_captured(&mut self, event: ScanEvent) -> (action: ScanAction)
        requires
            old(self).wf(),
            old(self).stage == ScanStage::Capture,
            old(self).accepts(event),
        ensures
            final(self).wf(),
            scan_post(*old(self), *final(self), event, action),
    {
        match event {
            ScanEvent::Captured(Ok(snapshot)) => {
                self.captured = Some(snapshot);
                self.stage = ScanStage::CollapseCaptured;
                ScanAction::CollapseCaptured { handle: self.candidates[self.next_candidate] }
            },
            ScanEvent::Captured(Err(_)) => self.next_candidate_step(),
            _ => {
                proof {
                    assert(false);
                }
                ScanAction::Sleep { secs: 1 }
            },
        }
    }

    fn on_collapse_captured(&mut self, event: ScanEvent) -> (action: ScanAction)
        requires
            old(self).wf(),
            old(self).stage == ScanStage::CollapseCaptured,
            old(self).accepts(event),
        ensures
            final(self).wf(),
            scan_post(*old(self), *final(self), event, action),
    {
        match event {
            ScanEvent::Done(Ok(())) => {
                match self.captured {
                    Some(snapshot) => {
                        put_snapshot(&mut self.collapsed, snapshot);
                    },
                    None => {},
                }
                self.stage = ScanStage::Notified;
                ScanAction::NotifyAdBlocked
            },
            ScanEvent::Done(Err(_)) => self.next_candidate_step(),
            _ => {
                proof {
                    assert(false);
                }
                ScanAction::Sleep { secs: 1 }
            },
        }
    }

    fn on_notified(&mut self, event: ScanEvent) -> (action: ScanAction)
        requires
            old(self).wf(),
            old(self).stage == ScanStage::Notified,
            old(self).accepts(event),
        ensures
            final(self).wf(),
            scan_post(*old(self), *final(self), event, action),
    {
        self.next_candidate_step()
    }

    #[verifier::spinoff_prover]
    fn on_restore_check(&mut self, event: ScanEvent) -> (action: ScanAction)
        requires
            old(self).wf(),
            old(self).stage == ScanStage::RestoreCheck,
            old(self).accepts(event),
        ensures
            final(self).wf(),
            scan_post(*old(self), *final(self), event, action),
    {
        match event {
            ScanEvent::Answer(running) => {
                let k = self.next_check;
                if !running {
                    let h = self.checks[k].handle;
                    let ghost before = self.restores@;
                    let ghost kept_before = self.collapsed@;
                    proof {
                        self.ended@ = self.ended@.insert(self.checks@[k as int].process_id);
                    }
                    match take_snapshot(&mut self.collapsed, h) {
                        Some(snapshot) => {
                            proof {
                                let hs = handles(kept_before);
                                let j = hs.index_of(h);
                                assert(hs.contains(h));
                                assert(0 <= j < hs.len() && hs[j] == h);
                                assert(kept_map(kept_before)[h] == kept_before[j]);
                                assert(snapshot.handle == h);
                                assert(!kept_map(self.collapsed@).dom().contains(h));
                            }
                            self.restores.push(self.checks[k]);
                            proof {
                                assert(keeps(kept_before, self.checks@[k as int].handle));
                                assert(kept_map(kept_before)[h] == self.checks@[k as int]);
                                assert(self.restores@[self.restores@.len() - 1] == kept_map(kept_before)[h]);
                                assert(self.restores@.contains(kept_map(kept_before)[h]));
                            }
                        },
                        None => {},
                    }
                    proof {
                        assert(!kept_map(self.collapsed@).dom().contains(h));
                        assert(!keeps(self.collapsed@, h));
                    }
                    proof {
                        assert forall|x: isize| #[trigger] kept_map(kept_before).dom().contains(x) && !kept_map(
                            self.collapsed@,
                        ).dom().contains(x) implies self.restores@.contains(kept_map(kept_before)[x]) by {
                            assert(x == h);
                        }
                    }
                    proof {
                        assert forall|q: int| 0 <= q < self.restores@.len() implies !keeps(self.collapsed@, #[trigger] self.restores@[q].handle) by {
                            let x = self.restores@[q].handle;
                            if q < before.len() {
                                assert(self.restores@[q] == before[q]);
                                assert(!keeps(kept_before, x));
                                assert(!kept_map(kept_before).dom().contains(x));
                                assert(!kept_map(self.collapsed@).dom().contains(x));
                            } else {
                                assert(!kept_map(self.collapsed@).dom().contains(h));
                            }
                        }
                    }
                }
                let n = self.checks.len();
                assert(k < n);
                proof {
                    let pre = *old(self);
                    assert forall|j: int|
                        k + 1 <= j < self.checks@.len() && keeps(self.collapsed@, #[trigger] self.checks@[j].handle)
                        implies kept_map(self.collapsed@)[self.checks@[j].handle] == self.checks@[j] by {
                        assert(kept_map(self.collapsed@).dom().contains(self.checks@[j].handle));
                        assert(kept_map(pre.collapsed@).dom().contains(self.checks@[j].handle));
                        assert(keeps(pre.collapsed@, pre.checks@[j].handle));
                    }
                }
                assert forall|x: isize| #[trigger] kept_map(old(self).collapsed@).dom().contains(x) && !kept_map(
                    self.collapsed@,
                ).dom().contains(x) implies self.restores@.contains(kept_map(old(self).collapsed@)[x]) by {
                    if running {
                        assert(self.collapsed == old(self).collapsed);
                    }
                }
                self.next_check = k + 1;
                assert(extends(old(self).restores@, self.restores@));
                assert(!running ==> !keeps(self.collapsed@, old(self).checks@[k as int].handle));
                if self.next_check < self.checks.len() {
                    ScanAction::CheckProcessRunning { process_id: self.checks[self.next_check].process_id }
                } else {
                    let ghost mid = *self;
                    let action = self.begin_restores();
                    proof {
                        let pre = *old(self);
                        assert forall|x: isize| #[trigger] kept_map(pre.collapsed@).dom().contains(x) && !kept_map(
                            self.collapsed@,
                        ).dom().contains(x) implies self.restores@.contains(kept_map(pre.collapsed@)[x]) by {
                            if kept_map(mid.collapsed@).dom().contains(x) {
                                assert(kept_map(mid.collapsed@)[x] == kept_map(pre.collapsed@)[x]);
                            } else {
                                assert(mid.restores@.contains(kept_map(pre.collapsed@)[x]));
                                let w = choose|w: int| 0 <= w < mid.restores@.len() && mid.restores@[w] == kept_map(pre.collapsed@)[x];
                                assert(self.restores@[w] == mid.restores@[w]);
                            }
                        }
                    }
                    action
                }
            },
            _ => {
                proof {
                    assert(false);
                }
                ScanAction::Sleep { secs: 1 }
            },
        }
    }

    fn on_restored(&mut self, event: ScanEvent) -> (action: ScanAction)
        requires
            old(self).wf(),
            old(self).stage == ScanStage::Restore,
            old(self).accepts(event),
        ensures
            final(self).wf(),
            scan_post(*old(self), *final(self), event, action),
    {
        let n = self.restores.len();
        assert(self.next_restore < n);
        self.next_restore = self.next_restore + 1;
        if self.next_restore < self.restores.len() {
            ScanAction::RestoreWindow { snapshot: self.restores[self.next_restore] }
        } else {
            self.finish_tick()
        }
    }

    fn on_status(&mut self, event: ScanEvent) -> (action: ScanAction)
        requires
            old(self).wf(),
            old(self).stage == ScanStage::Status,
            old(self).accepts(event),
        ensures
            final(self).wf(),
            scan_post(*old(self), *final(self), event, action),
    {
        self.stage = ScanStage::Idle;
        ScanAction::Sleep { secs: self.sleep_secs }
    }
}

} // verus!
