//! The transitions of [`SyncEngine`].

use vstd::prelude::*;
use crate::config::SyncJob;
use crate::sync::engine::{
    is_hidden, listing_names, msg_missing_folder, msg_no_source, msg_symlink, msg_target_inside,
    names_listed, needs_copy, path_view, source_label, target_label, EntryMeta, Frame, Listed,
    Stage, SyncAction, SyncEngine, SyncEvent, SyncProgress, TargetMeta, frame_ok, source_label_of, target_label_of,
    strings_of, copy_chars, copy_path, child_path, contains_name, sorted_listing, has_name,
};
use crate::sync::outcome::{IoErrorInfo, IoErrorKind, SyncOutcome, MAX_FAILURES, describe_io_error, io_reason};
use crate::sync::resume::{probe_result, views, ResumeCursor, ResumeProbe, relative_components};
use crate::text::{chars_of, owned, string_from, trim, trim_chars};

verus! {

/// A counter after one more event, held at `usize::MAX`.
pub open spec fn bump(n: usize) -> usize {
    if n < usize::MAX {
        (n + 1) as usize
    } else {
        n
    }
}

fn bumped(n: usize) -> (r: usize)
    ensures
        r == bump(n),
{
    if n < usize::MAX {
        n + 1
    } else {
        n
    }
}

/// The event reports a successful creation, copy or removal.
pub open spec fn done_ok(event: SyncEvent) -> bool {
    match event {
        SyncEvent::Done(Ok(_)) => true,
        _ => false,
    }
}

/// After reading the target file's metadata: whether the source file is copied.
/// A missing target is copied; another read error is a failure, not a copy.
pub open spec fn wants_copy(event: SyncEvent, src_len: u64, src_modified: Option<i128>) -> bool {
    match event {
        SyncEvent::TargetStat(Ok(m)) => needs_copy(src_len, src_modified, m.len, m.modified_nanos),
        SyncEvent::TargetStat(Err(e)) => e.kind == IoErrorKind::NotFound,
        _ => false,
    }
}

/// The event counts the entry being handled as skipped: a hidden entry the job
/// excludes, or a file whose target is up to date.
pub open spec fn skips(pre: SyncEngine, event: SyncEvent) -> bool {
    ||| pre.stage == Stage::Stat && match event {
        SyncEvent::Stat(Ok(m)) => !pre.include_hidden && is_hidden(
            m.hidden_attribute,
            pre.top().current@,
        ),
        _ => false,
    }
    ||| pre.stage == Stage::TargetStat && match event {
        SyncEvent::TargetStat(Ok(m)) => !needs_copy(
            pre.top().src_len,
            pre.top().src_modified,
            m.len,
            m.modified_nanos,
        ),
        _ => false,
    }
}

/// The metadata of a source entry that is a symbolic link or junction.
pub open spec fn stat_is_link(event: SyncEvent) -> bool {
    match event {
        SyncEvent::Stat(Ok(m)) => m.is_symlink,
        _ => false,
    }
}

/// The stop request is seen: the engine is about to take the next entry of a folder.
pub open spec fn stops(pre: SyncEngine, cancelled: bool) -> bool {
    cancelled && pre.stage == Stage::Loop && pre.top().pos < pre.top().entries@.len()
}

/// The next entry of the current folder, when the engine is about to handle it.
pub open spec fn next_entry(pre: SyncEngine) -> Listed {
    pre.top().entries@[pre.top().pos as int]
}

/// A removal of `path` removes a target entry whose name is not among the names
/// read from the corresponding source folder, after all of them were handled.
pub open spec fn safe_removal(post: SyncEngine, path: Seq<String>) -> bool {
    let p = path_view(path);
    &&& post.mirror_deletes
    &&& !post.outcome.cancelled
    &&& post.stage == Stage::Remove
    &&& p.len() > 0
    &&& p.drop_last() =~= views(post.top().dir@)
    &&& post.top().pos == post.top().entries@.len()
    &&& !names_listed(post.top().entries@).contains(p.last())
}

/// The reason recorded for an I/O error.
pub open spec fn error_reason(e: IoErrorInfo) -> Seq<char> {
    io_reason(e.kind, e.raw_os_error, e.message@)
}

/// `post` is `pre` with the failure (`path`, `reason`) recorded: listed while the
/// list has room, otherwise only counted.
pub open spec fn recorded(pre: SyncOutcome, post: SyncOutcome, path: Seq<char>, reason: Seq<char>) -> bool {
    if pre.failures@.len() < MAX_FAILURES {
        &&& post.failures@.len() == pre.failures@.len() + 1
        &&& post.failures@.drop_last() =~= pre.failures@
        &&& post.failures@.last().path@ == path
        &&& post.failures@.last().reason@ == reason
        &&& post.truncated_failures == pre.truncated_failures
    } else {
        &&& post.failures@ == pre.failures@
        &&& post.truncated_failures == bump(pre.truncated_failures)
    }
}

/// The path, relative to the folders, of the entry being handled.
pub open spec fn current_path(e: SyncEngine) -> Seq<Seq<char>> {
    views(e.top().dir@).push(e.top().current@)
}

/// The failure one step records, as (path shown, reason), if any.
pub open spec fn failure_of(pre: SyncEngine, event: SyncEvent, cancelled: bool) -> Option<(Seq<char>, Seq<char>)> {
    match pre.stage {
        Stage::Start => if trim(pre.source_text@).len() == 0 || pre.target_root@.len() == 0 {
            Some(("(설정)"@, msg_missing_folder()))
        } else {
            None
        },
        Stage::CheckSource => match event {
            SyncEvent::SourceChecked { is_dir } => if !is_dir {
                Some((pre.source_text@, msg_no_source()))
            } else {
                None
            },
            _ => None,
        },
        Stage::CheckInside => match event {
            SyncEvent::InsideChecked { inside } => if inside {
                Some((pre.target_text@, msg_target_inside()))
            } else {
                None
            },
            _ => None,
        },
        Stage::CreateRoot => match event {
            SyncEvent::Done(Err(e)) => Some((pre.target_text@, error_reason(e))),
            _ => None,
        },
        Stage::Listing => match event {
            SyncEvent::Listed(Err(e)) => Some((source_label(views(pre.top().dir@), pre.sep), error_reason(e))),
            _ => None,
        },
        Stage::Loop => if !stops(pre, cancelled) && pre.top().pos < pre.top().entries@.len() {
            match next_entry(pre).error {
                Some(e) => Some((source_label(views(pre.top().dir@), pre.sep), error_reason(e))),
                None => None,
            }
        } else {
            None
        },
        Stage::Stat => match event {
            SyncEvent::Stat(Err(e)) => Some((source_label(current_path(pre), pre.sep), error_reason(e))),
            SyncEvent::Stat(Ok(m)) => if !skips(pre, event) && m.is_symlink {
                Some((source_label(current_path(pre), pre.sep), msg_symlink()))
            } else {
                None
            },
            _ => None,
        },
        Stage::CreateDir => match event {
            SyncEvent::Done(Err(e)) => Some((target_label(pre.target_root@, current_path(pre), pre.sep), error_reason(e))),
            _ => None,
        },
        Stage::TargetStat => match event {
            SyncEvent::TargetStat(Err(e)) => if e.kind != IoErrorKind::NotFound {
                Some((target_label(pre.target_root@, current_path(pre), pre.sep), error_reason(e)))
            } else {
                None
            },
            _ => None,
        },
        Stage::Copy => match event {
            SyncEvent::Done(Err(e)) => Some((source_label(current_path(pre), pre.sep), error_reason(e))),
            _ => None,
        },
        Stage::MirrorList => match event {
            SyncEvent::Listed(Err(e)) => Some((target_label(pre.target_root@, views(pre.top().dir@), pre.sep), error_reason(e))),
            _ => None,
        },
        Stage::Remove => match event {
            SyncEvent::Done(Err(e)) => Some((
                target_label(
                    pre.target_root@,
                    views(pre.top().dir@).push(pre.top().removals@[pre.top().rpos as int]@),
                    pre.sep,
                ),
                error_reason(e),
            )),
            _ => None,
        },
        _ => None,
    }
}

/// The stage that takes the answer to `action`: the engine always waits for
/// exactly the answer to the action it returned.
pub open spec fn answered_in(action: SyncAction) -> Stage {
    match action {
        SyncAction::CheckSource => Stage::CheckSource,
        SyncAction::CheckTargetInside => Stage::CheckInside,
        SyncAction::CreateTargetRoot => Stage::CreateRoot,
        SyncAction::ListSource { .. } => Stage::Listing,
        SyncAction::StatSource { .. } => Stage::Stat,
        SyncAction::CreateTargetDir { .. } => Stage::CreateDir,
        SyncAction::Report(_) => Stage::Report,
        SyncAction::StatTarget { .. } => Stage::TargetStat,
        SyncAction::CopyFile { .. } => Stage::Copy,
        SyncAction::ListTarget { .. } => Stage::MirrorList,
        SyncAction::RemoveTarget { .. } => Stage::Remove,
        SyncAction::Proceed => Stage::Loop,
        SyncAction::Finished => Stage::Finished,
    }
}

/// The events that answer `action`.
pub open spec fn answers(action: SyncAction, event: SyncEvent) -> bool {
    match action {
        SyncAction::CheckSource => event is SourceChecked,
        SyncAction::CheckTargetInside => event is InsideChecked,
        SyncAction::CreateTargetRoot | SyncAction::CreateTargetDir { .. } | SyncAction::CopyFile { .. }
        | SyncAction::RemoveTarget { .. } => event is Done,
        SyncAction::ListSource { .. } | SyncAction::ListTarget { .. } => event is Listed,
        SyncAction::StatSource { .. } => event is Stat,
        SyncAction::StatTarget { .. } => event is TargetStat,
        SyncAction::Report(_) | SyncAction::Proceed | SyncAction::Finished => event is Acknowledged,
    }
}

/// After a step, the engine takes exactly the answers to the action it returned,
/// so a caller that performs each action and hands back its answer drives a run
/// to its end.
pub proof fn lemma_engine_takes_the_answer(pre: SyncEngine, post: SyncEngine, event: SyncEvent, cancelled: bool, action: SyncAction, answer: SyncEvent)
    requires
        step_post(pre, post, event, cancelled, action),
    ensures
        post.accepts(answer) == answers(action, answer),
{
}

/// What an action names: the folder or entry the engine stands at, and the
/// stage that waits for its answer (for `Proceed`, the walk of a folder's own
/// entries or of its target entries to remove).
pub open spec fn action_fits(post: SyncEngine, action: SyncAction) -> bool {
    &&& (if action is Proceed {
        post.stage == Stage::Loop || post.stage == Stage::MirrorLoop
    } else {
        post.stage == answered_in(action)
    })
    &&& match action {
        SyncAction::ListSource { dir } => path_view(dir@) =~= views(post.top().dir@),
        SyncAction::ListTarget { dir } => path_view(dir@) =~= views(post.top().dir@),
        SyncAction::StatSource { path } => path_view(path@) =~= current_path(post),
        SyncAction::CreateTargetDir { path } => path_view(path@) =~= current_path(post),
        SyncAction::StatTarget { path } => path_view(path@) =~= current_path(post),
        SyncAction::CopyFile { path } => path_view(path@) =~= current_path(post),
        SyncAction::Report(progress) => {
            &&& progress.current_path@ == source_label(current_path(post), post.sep)
            &&& progress.copied == post.outcome.copied
            &&& progress.skipped == post.outcome.skipped
            &&& progress.failed == (if post.outcome.failures@.len() + post.outcome.truncated_failures <= usize::MAX {
                post.outcome.failures@.len() + post.outcome.truncated_failures
            } else {
                usize::MAX as int
            })
        },
        _ => true,
    }
}

/// What one step guarantees, given the state before (`pre`) and after (`post`).
pub open spec fn step_post(
    pre: SyncEngine,
    post: SyncEngine,
    event: SyncEvent,
    cancelled: bool,
    action: SyncAction,
) -> bool {
    // A finished run stays finished and unchanged.
    &&& pre.stage == Stage::Finished ==> action is Finished && post == pre
    &&& (action is Finished) == (post.stage == Stage::Finished)
    // The setup checks come in order; only a failed one ends the run there.
    &&& pre.stage == Stage::Start ==> (if failure_of(pre, event, cancelled) is Some {
        action is Finished
    } else {
        action is CheckSource
    })
    &&& pre.stage == Stage::CheckSource ==> (if failure_of(pre, event, cancelled) is Some {
        action is Finished
    } else {
        action is CheckTargetInside
    })
    &&& pre.stage == Stage::CheckInside ==> (if failure_of(pre, event, cancelled) is Some {
        action is Finished
    } else {
        action is CreateTargetRoot
    })
    &&& pre.stage == Stage::CreateRoot ==> (if failure_of(pre, event, cancelled) is Some {
        action is Finished
    } else {
        action matches SyncAction::ListSource { dir } && dir@.len() == 0
    })
    // A folder read from the source is created at the target and walked; a file
    // is reported, then compared with its target.
    &&& pre.stage == Stage::Stat ==> (event matches SyncEvent::Stat(Ok(m)) ==> ((!m.is_symlink && !skips(
        pre,
        event,
    )) ==> (if m.is_dir {
        action is CreateTargetDir
    } else {
        action is Report
    })))
    &&& pre.stage == Stage::CreateDir ==> (event matches SyncEvent::Done(Ok(_)) ==> action is ListSource)
    &&& pre.stage == Stage::Report ==> action is StatTarget
    // A folder whose entries were all handled is compared with its target when
    // mirror deletes are on: what the target holds and the source did not show
    // is removed, one entry after the other.
    &&& (pre.stage == Stage::Loop && pre.top().pos >= pre.top().entries@.len()) ==> ((action is ListTarget)
        == pre.mirror_deletes)
    &&& pre.stage == Stage::MirrorList ==> (event matches SyncEvent::Listed(Ok(items)) ==> views(
        post.top().removals@,
    ) == unseen_names(items@, pre.top().seen@))
    &&& (pre.stage == Stage::MirrorLoop && pre.top().rpos < pre.top().removals@.len()) ==> (
    action matches SyncAction::RemoveTarget { path } && path_view(path@) == views(pre.top().dir@).push(
        pre.top().removals@[pre.top().rpos as int]@,
    ))
    // The walk: each entry of a folder is taken once, in order; a folder created at
    // the target is entered and read; a folder read is walked from its first
    // entry; a folder done (and compared, with mirror deletes) is left for its
    // parent; an entry's handling ends back in its folder.
    &&& (pre.stage == Stage::Loop && pre.top().pos < pre.top().entries@.len() && !stops(pre, cancelled)) ==> {
        &&& post.frames@.len() == pre.frames@.len()
        &&& post.frames@.drop_last() == pre.frames@.drop_last()
        &&& post.top().dir == pre.top().dir
        &&& post.top().entries == pre.top().entries
        &&& post.top().pos == pre.top().pos + 1
        &&& action is StatSource ==> post.stage == Stage::Stat && post.top().current@ == next_entry(pre).name@
        &&& !(action is StatSource) ==> post.stage == Stage::Loop && action is Proceed
    }
    &&& (pre.stage == Stage::Loop && pre.top().pos >= pre.top().entries@.len() && pre.mirror_deletes) ==> (
    post.stage == Stage::MirrorList && post.frames == pre.frames)
    &&& ((pre.stage == Stage::Loop && pre.top().pos >= pre.top().entries@.len() && !pre.mirror_deletes) || (pre.stage
        == Stage::MirrorLoop && pre.top().rpos >= pre.top().removals@.len()) || ((pre.stage == Stage::Listing
        || pre.stage == Stage::MirrorList) && event matches SyncEvent::Listed(Err(_)))) ==> post.frames@
        == pre.frames@.drop_last()
    &&& (pre.stage == Stage::CreateDir && event matches SyncEvent::Done(Ok(_))) ==> {
        &&& post.stage == Stage::Listing
        &&& post.frames@.len() == pre.frames@.len() + 1
        &&& post.frames@.drop_last() == pre.frames@
        &&& views(post.top().dir@) == current_path(pre)
        &&& post.top().entries@.len() == 0
    }
    &&& (pre.stage == Stage::Listing && event matches SyncEvent::Listed(Ok(_))) ==> {
        &&& post.stage == Stage::Loop
        &&& action is Proceed
        &&& post.frames@.len() == pre.frames@.len()
        &&& post.frames@.drop_last() == pre.frames@.drop_last()
        &&& post.top().dir == pre.top().dir
        &&& post.top().pos == 0
    }
    &&& ((pre.stage == Stage::Stat || pre.stage == Stage::CreateDir || pre.stage == Stage::TargetStat || pre.stage
        == Stage::Copy) && action is Proceed) ==> post.stage == Stage::Loop && post.frames == pre.frames
    // The target entries to remove are taken one after the other.
    &&& (pre.stage == Stage::MirrorList && event matches SyncEvent::Listed(Ok(_))) ==> {
        &&& post.stage == Stage::MirrorLoop
        &&& post.frames@.len() == pre.frames@.len()
        &&& post.frames@.drop_last() == pre.frames@.drop_last()
        &&& post.top().dir == pre.top().dir
        &&& post.top().rpos == 0
    }
    &&& (pre.stage == Stage::MirrorLoop && pre.top().rpos < pre.top().removals@.len()) ==> post.stage == Stage::Remove
        && post.frames == pre.frames
    &&& pre.stage == Stage::Remove ==> {
        &&& post.stage == Stage::MirrorLoop
        &&& action is Proceed
        &&& post.frames@.len() == pre.frames@.len()
        &&& post.frames@.drop_last() == pre.frames@.drop_last()
        &&& post.top().dir == pre.top().dir
        &&& post.top().removals == pre.top().removals
        &&& post.top().rpos == pre.top().rpos + 1
    }
    // A file's size and time, read from the source, are what its target is compared with.
    &&& (pre.stage == Stage::Stat && action is Report) ==> (event matches SyncEvent::Stat(Ok(m)) ==> {
        &&& post.stage == Stage::Report
        &&& post.frames@.len() == pre.frames@.len()
        &&& post.frames@.drop_last() == pre.frames@.drop_last()
        &&& post.top().dir == pre.top().dir
        &&& post.top().current == pre.top().current
        &&& post.top().src_len == m.len
        &&& post.top().src_modified == m.modified_nanos
    })
    &&& (pre.stage == Stage::Report || pre.stage == Stage::TargetStat) ==> post.frames == pre.frames
    // While entries wait in the current folder, only the stop request ends the run.
    &&& (pre.stage == Stage::Loop && pre.top().pos < pre.top().entries@.len() && !stops(pre, cancelled))
        ==> !(action is Finished)
    // Past the setup, the run ends only when stopped or once the source folder
    // itself was left.
    &&& (action is Finished && pre.stage != Stage::Finished && pre.stage != Stage::Start
        && pre.stage != Stage::CheckSource && pre.stage != Stage::CheckInside && pre.stage
        != Stage::CreateRoot) ==> (stops(pre, cancelled) || post.frames@.len() == 0)
    // A run reports that it resumed exactly when it walked the source from a
    // resume point: the point given at the start, untouched by the setup checks.
    &&& post.resuming == (if pre.stage == Stage::CreateRoot {
        done_ok(event) && pre.cursor.view_components() is Some
    } else {
        pre.resuming
    })
    &&& (pre.stage == Stage::Start || pre.stage == Stage::CheckSource || pre.stage == Stage::CheckInside
        || pre.stage == Stage::CreateRoot) ==> post.cursor == pre.cursor
    &&& post.outcome.resumed == (post.stage == Stage::Finished && post.resuming)
    // The job's settings are fixed for the run.
    &&& post.include_hidden == pre.include_hidden
    &&& post.mirror_deletes == pre.mirror_deletes
    &&& post.sep == pre.sep
    &&& post.source_text == pre.source_text
    &&& post.target_text == pre.target_text
    &&& post.target_root == pre.target_root
    // The stop request ends the run before the next entry, and only there.
    &&& post.outcome.cancelled == (pre.outcome.cancelled || stops(pre, cancelled))
    &&& stops(pre, cancelled) ==> action is Finished
    // Counters.
    &&& post.outcome.copied == (if pre.stage == Stage::Copy && done_ok(event) {
        bump(pre.outcome.copied)
    } else {
        pre.outcome.copied
    })
    &&& post.outcome.deleted == (if pre.stage == Stage::Remove && done_ok(event) {
        bump(pre.outcome.deleted)
    } else {
        pre.outcome.deleted
    })
    &&& post.outcome.skipped == (if skips(pre, event) {
        bump(pre.outcome.skipped)
    } else {
        pre.outcome.skipped
    })
    // A file is copied exactly when its target is missing or out of date, and
    // only once its target was read.
    &&& action is CopyFile ==> pre.stage == Stage::TargetStat
    &&& pre.stage == Stage::TargetStat ==> ((action is CopyFile) == wants_copy(
        event,
        pre.top().src_len,
        pre.top().src_modified,
    ))
    // Links and excluded hidden entries are passed over.
    &&& (pre.stage == Stage::Stat && (stat_is_link(event) || skips(pre, event))) ==> action is Proceed
    // Entries before the resume point are never read.
    &&& (pre.stage == Stage::Loop && !stops(pre, cancelled) && pre.top().pos
        < pre.top().entries@.len() && next_entry(pre).error is None) ==> ((action is StatSource)
        == (probe_result(
        pre.cursor.view_components(),
        pre.top().depth as nat,
        next_entry(pre).name@,
    ).0 != ResumeProbe::Skip))
    // A folder's listing is kept whole.
    &&& pre.stage == Stage::Listing ==> (event matches SyncEvent::Listed(Ok(items))
        ==> names_listed(post.top().entries@) == listing_names(items@))
    // Mirror deletes never remove what the source folder holds.
    &&& action matches SyncAction::RemoveTarget { path } ==> safe_removal(post, path@)
    // The paths handed to the caller, and the progress reported.
    &&& action_fits(post, action)
    // Failures: exactly the one this step meets, if any.
    &&& match failure_of(pre, event, cancelled) {
        Some(f) => recorded(pre.outcome, post.outcome, f.0, f.1),
        None => post.outcome.failures == pre.outcome.failures && post.outcome.truncated_failures
            == pre.outcome.truncated_failures,
    }
}

/// A run in which every target file met is up to date (as on a second run over
/// an unchanged source, once the first run's copies kept their sizes and times)
/// copies nothing: taken step by step from a state that is not copying, the
/// engine never copies and its count of copies stays as it was.
pub proof fn lemma_up_to_date_run_copies_nothing(
    states: Seq<SyncEngine>,
    events: Seq<SyncEvent>,
    cancels: Seq<bool>,
    actions: Seq<SyncAction>,
)
    requires
        states.len() == events.len() + 1,
        cancels.len() == events.len(),
        actions.len() == events.len(),
        forall|k: int| 0 <= k < events.len() ==> step_post(#[trigger] states[k], states[k + 1], events[k], cancels[k], actions[k]),
        forall|k: int| 0 <= k < events.len() && (#[trigger] states[k]).stage == Stage::TargetStat ==> !wants_copy(
            events[k],
            states[k].top().src_len,
            states[k].top().src_modified,
        ),
        states[0].stage != Stage::Copy,
    ensures
        forall|k: int| 0 <= k < states.len() ==> (#[trigger] states[k]).stage != Stage::Copy,
        forall|k: int| 0 <= k < actions.len() ==> !(#[trigger] actions[k] is CopyFile),
        states.last().outcome.copied == states[0].outcome.copied,
    decreases events.len(),
{
    if events.len() > 0 {
        let n = events.len() - 1;
        lemma_up_to_date_run_copies_nothing(states.drop_last(), events.drop_last(), cancels.drop_last(), actions.drop_last());
        assert(states.drop_last()[n] == states[n]);
        assert(states[n].stage != Stage::Copy);
        assert(step_post(states[n], states[n + 1], events[n], cancels[n], actions[n]));
        assert(!(actions[n] is CopyFile));
        assert(states[n + 1].stage != Stage::Copy);
        assert forall|k: int| 0 <= k < states.len() implies (#[trigger] states[k]).stage != Stage::Copy by {
            if k < states.len() - 1 {
                assert(states.drop_last()[k] == states[k]);
            }
        }
        assert forall|k: int| 0 <= k < actions.len() implies !(#[trigger] actions[k] is CopyFile) by {
            if k < actions.len() - 1 {
                assert(actions.drop_last()[k] == actions[k]);
            }
        }
    }
}

/// A source file whose size differs from its target's is copied, whatever the
/// two modification times.
pub proof fn lemma_size_change_is_copied(src_len: u64, src_modified: Option<i128>, dst_len: u64, dst_modified: Option<i128>)
    requires
        src_len != dst_len,
    ensures
        needs_copy(src_len, src_modified, dst_len, dst_modified),
{
}

/// A source file of its target's size is copied exactly when it is two seconds or
/// more newer (a missing time counting as the epoch).
pub proof fn lemma_same_size_copied_when_two_seconds_newer(len: u64, src_modified: Option<i128>, dst_modified: Option<i128>)
    ensures
        needs_copy(len, src_modified, len, dst_modified) == ((match src_modified {
            Some(t) => t as int,
            None => 0,
        }) >= (match dst_modified {
            Some(t) => t as int,
            None => 0,
        }) + 2_000_000_000),
{
}

/// In a run, a file whose target was read with another size is copied.
pub proof fn lemma_resized_target_is_copied(
    pre: SyncEngine,
    post: SyncEngine,
    event: SyncEvent,
    cancelled: bool,
    action: SyncAction,
)
    requires
        step_post(pre, post, event, cancelled, action),
        pre.stage == Stage::TargetStat,
        event matches SyncEvent::TargetStat(Ok(m)) && m.len != pre.top().src_len,
    ensures
        action is CopyFile,
        post.outcome.skipped == pre.outcome.skipped,
{
    let m = event->TargetStat_0->Ok_0;
    lemma_size_change_is_copied(pre.top().src_len, pre.top().src_modified, m.len, m.modified_nanos);
}

/// The names to remove after listing a target folder are exactly the names read
/// from the listing without error that are not among the source names seen.
pub proof fn lemma_unseen_names_exact(items: Seq<Result<String, IoErrorInfo>>, seen: Seq<Vec<char>>)
    ensures
        forall|n: Seq<char>|
            #[trigger] unseen_names(items, seen).contains(n) <==> (!has_name(seen, n) && exists|k: int|
                0 <= k < items.len() && (#[trigger] items[k] matches Ok(x) && x@ == n)),
    decreases items.len(),
{
    if items.len() > 0 {
        let rest = items.drop_last();
        lemma_unseen_names_exact(rest, seen);
        assert forall|n: Seq<char>|
            #[trigger] unseen_names(items, seen).contains(n) <==> (!has_name(seen, n) && exists|k: int|
                0 <= k < items.len() && (#[trigger] items[k] matches Ok(x) && x@ == n)) by {
            let r = unseen_names(rest, seen);
            if unseen_names(items, seen).contains(n) {
                if r.contains(n) {
                    let k = choose|k: int| 0 <= k < rest.len() && (#[trigger] rest[k] matches Ok(x) && x@ == n);
                    assert(items[k] == rest[k]);
                } else {
                    let w = choose|w: int| 0 <= w < unseen_names(items, seen).len() && unseen_names(items, seen)[w] == n;
                    assert(w == r.len());
                    assert(items[items.len() - 1] == items.last());
                }
            }
            if !has_name(seen, n) && exists|k: int| 0 <= k < items.len() && (#[trigger] items[k] matches Ok(x) && x@ == n) {
                let k = choose|k: int| 0 <= k < items.len() && (#[trigger] items[k] matches Ok(x) && x@ == n);
                if k < rest.len() {
                    assert(rest[k] == items[k]);
                    assert(r.contains(n));
                    let w = choose|w: int| 0 <= w < r.len() && r[w] == n;
                    match items.last() {
                        Ok(x) => if !has_name(seen, x@) {
                            assert(r.push(x@)[w] == n);
                        },
                        Err(_) => {},
                    }
                } else {
                    assert(items.last() == items[k]);
                    assert(unseen_names(items, seen)[r.len() as int] == n);
                }
            }
        }
    }
}

/// Under mirror deletes, every name read from a target folder's listing that the
/// source folder did not show goes on the folder's removal list, and nothing else.
pub proof fn lemma_mirror_lists_every_stale_name(
    pre: SyncEngine,
    post: SyncEngine,
    event: SyncEvent,
    cancelled: bool,
    action: SyncAction,
)
    requires
        step_post(pre, post, event, cancelled, action),
        pre.stage == Stage::MirrorList,
        event is Listed,
        event->Listed_0 is Ok,
    ensures
        forall|n: Seq<char>|
            #[trigger] views(post.top().removals@).contains(n) <==> (!has_name(pre.top().seen@, n) && exists|k: int|
                0 <= k < event->Listed_0->Ok_0@.len() && (#[trigger] event->Listed_0->Ok_0@[k] matches Ok(x) && x@ == n)),
{
    lemma_unseen_names_exact(event->Listed_0->Ok_0@, pre.top().seen@);
}

/// A folder's bookkeeping stays consistent when more entries are marked handled,
/// provided their names are among the names seen and no name seen is lost.
proof fn lemma_frame_ok_step(a: Frame, b: Frame)
    requires
        frame_ok(a),
        b.entries@ == a.entries@,
        a.pos <= b.pos <= b.entries@.len(),
        b.rpos <= b.removals@.len(),
        forall|j: int| 0 <= j < a.seen@.len() ==> has_name(b.seen@, (#[trigger] a.seen@[j])@),
        forall|i: int| a.pos <= i < b.pos && (#[trigger] b.entries@[i]).error is None ==> has_name(b.seen@, b.entries@[i].name@),
    ensures
        frame_ok(b),
{
    assert forall|i: int| 0 <= i < b.pos && (#[trigger] b.entries@[i]).error is None implies has_name(b.seen@, b.entries@[i].name@) by {
        if i < a.pos {
            assert(a.entries@[i] == b.entries@[i]);
            assert(has_name(a.seen@, a.entries@[i].name@));
            let j = choose|j: int| 0 <= j < a.seen@.len() && a.seen@[j]@ == a.entries@[i].name@;
            assert(has_name(b.seen@, a.seen@[j]@));
        }
    }
}

/// Where only fields outside the bookkeeping change.
proof fn lemma_frame_ok_same(a: Frame, b: Frame)
    requires
        frame_ok(a),
        b.entries@ == a.entries@,
        b.pos == a.pos,
        b.seen@ == a.seen@,
        b.rpos <= b.removals@.len(),
    ensures
        frame_ok(b),
{
    assert forall|j: int| 0 <= j < a.seen@.len() implies has_name(b.seen@, (#[trigger] a.seen@[j])@) by {
        assert(0 <= j < b.seen@.len() && b.seen@[j]@ == a.seen@[j]@);
    }
    lemma_frame_ok_step(a, b);
}

/// Whether a source file must be copied over an existing target file.
fn copy_needed(src_len: u64, src_modified: Option<i128>, dst_len: u64, dst_modified: Option<i128>) -> (r: bool)
    ensures
        r == needs_copy(src_len, src_modified, dst_len, dst_modified),
        src_len != dst_len ==> r,
{
    if src_len != dst_len {
        return true;
    }
    let s: i128 = match src_modified {
        Some(n) => n,
        None => 0,
    };
    let d: i128 = match dst_modified {
        Some(n) => n,
        None => 0,
    };
    if d > i128::MAX - 2_000_000_000 {
        false
    } else {
        s >= d + 2_000_000_000
    }
}

/// The names read without error from a target listing that are not among
/// `seen`, in listing order.
pub open spec fn unseen_names(items: Seq<Result<String, IoErrorInfo>>, seen: Seq<Vec<char>>) -> Seq<Seq<char>>
    decreases items.len(),
{
    if items.len() == 0 {
        Seq::empty()
    } else {
        let rest = unseen_names(items.drop_last(), seen);
        match items.last() {
            Ok(n) => if has_name(seen, n@) {
                rest
            } else {
                rest.push(n@)
            },
            Err(_) => rest,
        }
    }
}

/// The names read without error from a target listing that are not among `seen`.
fn names_not_seen(items: &Vec<Result<String, IoErrorInfo>>, seen: &Vec<Vec<char>>) -> (r: Vec<Vec<char>>)
    ensures
        forall|i: int| 0 <= i < r@.len() ==> !(exists|j: int| 0 <= j < seen@.len() && #[trigger] seen@[j]@ == (#[trigger] r@[i])@),
        views(r@) == unseen_names(items@, seen@),
        forall|k: int|
            0 <= k < items@.len() && (#[trigger] items@[k] matches Ok(n) && !has_name(seen@, n@)) ==> views(r@).contains(
                items@[k]->Ok_0@,
            ),
{
    let mut r: Vec<Vec<char>> = Vec::new();
    let mut k: usize = 0;
    while k < items.len()
        invariant
            k <= items@.len(),
            forall|i: int| 0 <= i < r@.len() ==> !(exists|j: int| 0 <= j < seen@.len() && #[trigger] seen@[j]@ == (#[trigger] r@[i])@),
            views(r@) == unseen_names(items@.subrange(0, k as int), seen@),
        decreases items@.len() - k,
    {
        let ghost before = r@;
        proof {
            let next = items@.subrange(0, k + 1);
            assert(next.drop_last() =~= items@.subrange(0, k as int));
            assert(next.last() == items@[k as int]);
        }
        match &items[k] {
            Ok(name) => {
                let cs = chars_of(name.as_str());
                if !contains_name(seen, &cs) {
                    r.push(cs);
                    assert(views(r@) =~= views(before).push(cs@));
                }
            },
            Err(_) => {},
        }
        k = k + 1;
    }
    assert(items@.subrange(0, items@.len() as int) =~= items@);
    proof {
        lemma_unseen_names_exact(items@, seen@);
        assert forall|k: int|
            0 <= k < items@.len() && (#[trigger] items@[k] matches Ok(n) && !has_name(seen@, n@)) implies views(
                r@,
            ).contains(items@[k]->Ok_0@) by {
            assert(unseen_names(items@, seen@).contains(items@[k]->Ok_0@));
        }
    }
    r
}

/// The resume point a run starts from: the components of the given relative
/// path, or none when there is no path or it has no components.
pub open spec fn start_cursor(resume_from: Option<Seq<char>>) -> Option<Seq<Seq<char>>> {
    match resume_from {
        Some(p) => if relative_components(p).len() > 0 {
            Some(relative_components(p))
        } else {
            None
        },
        None => None,
    }
}

fn empty_frame(dir: Vec<Vec<char>>, depth: usize) -> (f: Frame)
    ensures
        f.dir == dir,
        f.depth == depth,
        f.entries@.len() == 0,
        f.pos == 0,
        f.seen@.len() == 0,
        f.removals@.len() == 0,
        f.rpos == 0,
        frame_ok(f),
{
    Frame {
        dir,
        depth,
        entries: Vec::new(),
        pos: 0,
        seen: Vec::new(),
        current: Vec::new(),
        child_depth: 0,
        src_len: 0,
        src_modified: None,
        removals: Vec::new(),
        rpos: 0,
    }
}

impl SyncEngine {
    /// An engine for one run of `job`, resuming from `resume_from` when given,
    /// reporting paths with the separator `sep`.
    pub fn new(job: &SyncJob, resume_from: Option<&str>, sep: char) -> (r: SyncEngine)
        ensures
            r.wf(),
            r.stage == Stage::Start,
            r.include_hidden == job.include_hidden,
            r.mirror_deletes == job.mirror_deletes,
            r.sep == sep,
            r.source_text@ == job.source@,
            r.target_text@ == job.target@,
            r.target_root@ == trim(job.target@),
            r.cursor.view_components() == start_cursor(
                match resume_from {
                    Some(p) => Some(p@),
                    None => None,
                },
            ),
            !r.resuming,
            r.outcome.copied == 0,
            r.outcome.skipped == 0,
            r.outcome.deleted == 0,
            r.outcome.failures@.len() == 0,
            r.outcome.truncated_failures == 0,
            !r.outcome.cancelled,
            !r.outcome.resumed,
    {
        let cursor = match resume_from {
            Some(p) => {
                let cs = chars_of(p);
                ResumeCursor::from_path(cs.as_slice())
            },
            None => ResumeCursor::none(),
        };
        let target_text = chars_of(job.target.as_str());
        let target_root = trim_chars(target_text.as_slice());
        SyncEngine {
            include_hidden: job.include_hidden,
            mirror_deletes: job.mirror_deletes,
            sep,
            source_text: chars_of(job.source.as_str()),
            target_text,
            target_root,
            cursor,
            resuming: false,
            frames: Vec::new(),
            outcome: SyncOutcome::new(),
            stage: Stage::Start,
        }
    }

    /// Whether `event` answers the last action; `step` takes only such events.
    pub fn expects(&self, event: &SyncEvent) -> (r: bool)
        ensures
            r == self.accepts(*event),
    {
        match self.stage {
            Stage::Start => matches!(event, SyncEvent::Start),
            Stage::CheckSource => matches!(event, SyncEvent::SourceChecked { .. }),
            Stage::CheckInside => matches!(event, SyncEvent::InsideChecked { .. }),
            Stage::CreateRoot | Stage::CreateDir | Stage::Copy | Stage::Remove => matches!(
                event,
                SyncEvent::Done(_)
            ),
            Stage::Listing | Stage::MirrorList => matches!(event, SyncEvent::Listed(_)),
            Stage::Stat => matches!(event, SyncEvent::Stat(_)),
            Stage::TargetStat => matches!(event, SyncEvent::TargetStat(_)),
            Stage::Loop | Stage::Report | Stage::MirrorLoop | Stage::Finished => matches!(
                event,
                SyncEvent::Acknowledged
            ),
        }
    }

    /// Takes the result of the last action and returns the next one. `cancelled`
    /// is the user's stop request as it stands now.
    pub fn step(&mut self, event: SyncEvent, cancelled: bool) -> (action: SyncAction)
        requires
            old(self).wf(),
            old(self).accepts(event),
        ensures
            final(self).wf(),
            step_post(*old(self), *final(self), event, cancelled, action),
    {
        match self.stage {
            Stage::Start => self.on_start(event, cancelled),
            Stage::CheckSource => self.on_check_source(event, cancelled),
            Stage::CheckInside => self.on_check_inside(event, cancelled),
            Stage::CreateRoot => self.on_create_root(event, cancelled),
            Stage::Listing => self.on_listing(event, cancelled),
            Stage::Loop => self.on_loop(event, cancelled),
            Stage::Stat => self.on_stat(event, cancelled),
            Stage::CreateDir => self.on_create_dir(event, cancelled),
            Stage::Report => self.on_report(event, cancelled),
            Stage::TargetStat => self.on_target_stat(event, cancelled),
            Stage::Copy => self.on_copy(event, cancelled),
            Stage::MirrorList => self.on_mirror_list(event, cancelled),
            Stage::MirrorLoop => self.on_mirror_loop(event, cancelled),
            Stage::Remove => self.on_remove(event, cancelled),
            Stage::Finished => SyncAction::Finished,
        }
    }

    fn on_check_source(&mut self, event: SyncEvent, cancelled: bool) -> (action: SyncAction)
        requires
            old(self).wf(),
            old(self).stage == Stage::CheckSource,
            old(self).accepts(event),
        ensures
            final(self).wf(),
            step_post(*old(self), *final(self), event, cancelled, action),
    {
        match event {
            SyncEvent::SourceChecked { is_dir } => {
                if is_dir {
                    self.stage = Stage::CheckInside;
                    SyncAction::CheckTargetInside
                } else {
                    let path = string_from(self.source_text.as_slice());
                    self.outcome.fail(path, owned("원본 폴더가 존재하지 않거나 폴더가 아닙니다."));
                    self.outcome.resumed = self.resuming;
                    self.stage = Stage::Finished;
                    SyncAction::Finished
                }
            },
            _ => {
                proof {
                    assert(false);
                }
                SyncAction::Finished
            },
        }
    }

    fn on_check_inside(&mut self, event: SyncEvent, cancelled: bool) -> (action: SyncAction)
        requires
            old(self).wf(),
            old(self).stage == Stage::CheckInside,
            old(self).accepts(event),
        ensures
            final(self).wf(),
            step_post(*old(self), *final(self), event, cancelled, action),
    {
        match event {
            SyncEvent::InsideChecked { inside } => {
                if inside {
                    let path = string_from(self.target_text.as_slice());
                    self.outcome.fail(
                        path,
                        owned("대상 폴더가 원본 폴더 내부에 있어 동기화할 수 없습니다."),
                    );
                    self.outcome.resumed = self.resuming;
                    self.stage = Stage::Finished;
                    SyncAction::Finished
                } else {
                    self.stage = Stage::CreateRoot;
                    SyncAction::CreateTargetRoot
                }
            },
            _ => {
                proof {
                    assert(false);
                }
                SyncAction::Finished
            },
        }
    }

    fn on_create_root(&mut self, event: SyncEvent, cancelled: bool) -> (action: SyncAction)
        requires
            old(self).wf(),
            old(self).stage == Stage::CreateRoot,
            old(self).accepts(event),
        ensures
            final(self).wf(),
            step_post(*old(self), *final(self), event, cancelled, action),
    {
        match event {
            SyncEvent::Done(Err(e)) => {
                let path = string_from(self.target_text.as_slice());
                self.outcome.fail(path, describe_io_error(&e));
                self.outcome.resumed = self.resuming;
                self.stage = Stage::Finished;
                SyncAction::Finished
            },
            SyncEvent::Done(Ok(())) => {
                self.resuming = self.cursor.is_resuming();
                self.frames.push(empty_frame(Vec::new(), 0));
                self.stage = Stage::Listing;
                SyncAction::ListSource { dir: Vec::new() }
            },
            _ => {
                proof {
                    assert(false);
                }
                SyncAction::Finished
            },
        }
    }

    fn on_listing(&mut self, event: SyncEvent, cancelled: bool) -> (action: SyncAction)
        requires
            old(self).wf(),
            old(self).stage == Stage::Listing,
            old(self).accepts(event),
        ensures
            final(self).wf(),
            step_post(*old(self), *final(self), event, cancelled, action),
    {
        let ghost pre = *self;
        match event {
            SyncEvent::Listed(Err(e)) => {
                let t = self.frames.len() - 1;
                let label = source_label_of(&self.frames[t].dir, self.sep);
                self.outcome.fail(string_from(label.as_slice()), describe_io_error(&e));
                self.leave_folder()
            },
            SyncEvent::Listed(Ok(items)) => {
                let mut f = self.frames.pop().unwrap();
                f.entries = sorted_listing(items);
                f.pos = 0;
                f.seen = Vec::new();
                self.frames.push(f);
                assert(self.frames@.drop_last() =~= pre.frames@.drop_last());
                proof {
                    assert forall|k: int| 0 <= k < self.frames@.len() implies frame_ok(#[trigger] self.frames@[k]) by {
                        if k < self.frames@.len() - 1 {
                            assert(self.frames@[k] == pre.frames@[k]);
                        } else {
                            assert(frame_ok(pre.frames@[pre.frames@.len() - 1]));
                        }
                    }
                }
                self.stage = Stage::Loop;
                SyncAction::Proceed
            },
            _ => {
                proof {
                    assert(false);
                }
                SyncAction::Finished
            },
        }
    }

    /// Ends the current folder: back to the parent folder's entries, or the end of
    /// the run after the source folder itself.
    fn leave_folder(&mut self) -> (action: SyncAction)
        requires
            old(self).frames@.len() >= 1,
            forall|k: int| 0 <= k < old(self).frames@.len() ==> frame_ok(#[trigger] old(self).frames@[k]),
            old(self).outcome.failures@.len() <= MAX_FAILURES,
            !old(self).outcome.cancelled,
            !old(self).outcome.resumed,
        ensures
            final(self).frames@ == old(self).frames@.drop_last(),
            final(self).frames@.len() == 0 ==> final(self).stage == Stage::Finished && action is Finished,
            final(self).frames@.len() > 0 ==> final(self).stage == Stage::Loop && action is Proceed,
            final(self).outcome == (SyncOutcome { resumed: (if final(self).frames@.len() == 0 { old(self).resuming } else { false }), ..old(self).outcome }),
            final(self).include_hidden == old(self).include_hidden,
            final(self).mirror_deletes == old(self).mirror_deletes,
            final(self).sep == old(self).sep,
            final(self).source_text == old(self).source_text,
            final(self).target_text == old(self).target_text,
            final(self).target_root == old(self).target_root,
            final(self).cursor == old(self).cursor,
            final(self).resuming == old(self).resuming,
            final(self).wf(),
    {
        let _ = self.frames.pop();
        if self.frames.len() == 0 {
            self.outcome.resumed = self.resuming;
            self.stage = Stage::Finished;
            SyncAction::Finished
        } else {
            self.stage = Stage::Loop;
            SyncAction::Proceed
        }
    }

    fn on_loop(&mut self, event: SyncEvent, cancelled: bool) -> (action: SyncAction)
        requires
            old(self).wf(),
            old(self).stage == Stage::Loop,
            old(self).accepts(event),
        ensures
            final(self).wf(),
            step_post(*old(self), *final(self), event, cancelled, action),
    {
        let ghost pre = *self;
        let t = self.frames.len() - 1;
        if self.frames[t].pos < self.frames[t].entries.len() {
            if cancelled {
                self.outcome.cancelled = true;
                self.frames = Vec::new();
                self.outcome.resumed = self.resuming;
                self.stage = Stage::Finished;
                return SyncAction::Finished;
            }
            proof {
                assert(frame_ok(pre.frames@[t as int]));
            }
            let clen = match &self.cursor.components {
                Some(c) => c.len(),
                None => 0,
            };
            let mut f = self.frames.pop().unwrap();
            let p = f.pos;
            f.pos = p + 1;
            let failed_read = match &f.entries[p].error {
                Some(e) => Some(describe_io_error(e)),
                None => None,
            };
            match failed_read {
                Some(reason) => {
                    let label = source_label_of(&f.dir, self.sep);
                    self.frames.push(f);
                    assert(self.frames@.drop_last() =~= pre.frames@.drop_last());
                    proof {
                        assert forall|k: int| 0 <= k < self.frames@.len() implies frame_ok(#[trigger] self.frames@[k]) by {
                            if k < self.frames@.len() - 1 {
                                assert(self.frames@[k] == pre.frames@[k]);
                            } else {
                                assert(f.entries@[p as int].error is Some);
                                lemma_frame_ok_same(pre.frames@[t as int], pre.frames@[t as int]);
                                assert forall|j: int| 0 <= j < pre.frames@[t as int].seen@.len() implies has_name(f.seen@, (#[trigger] pre.frames@[t as int].seen@[j])@) by {
                                    assert(0 <= j < f.seen@.len() && f.seen@[j]@ == pre.frames@[t as int].seen@[j]@);
                                }
                                lemma_frame_ok_step(pre.frames@[t as int], f);
                            }
                        }
                    }
                    self.outcome.fail(string_from(label.as_slice()), reason);
                    SyncAction::Proceed
                },
                None => {
                    let name = copy_chars(&f.entries[p].name);
                    let ghost seen_before = f.seen@;
                    f.seen.push(copy_chars(&name));
                    proof {
                        assert(f.seen@[seen_before.len() as int]@ == f.entries@[p as int].name@);
                        assert(has_name(f.seen@, f.entries@[p as int].name@));
                        assert forall|j: int| 0 <= j < pre.frames@[t as int].seen@.len() implies has_name(f.seen@, (#[trigger] pre.frames@[t as int].seen@[j])@) by {
                            assert(0 <= j < f.seen@.len() && f.seen@[j]@ == pre.frames@[t as int].seen@[j]@);
                        }
                        lemma_frame_ok_step(pre.frames@[t as int], f);
                    }
                    let ghost f0 = f;
                    let probe = self.cursor.probe(f.depth, name.as_slice());
                    proof {
                        if probe == ResumeProbe::Descend {
                            assert(f.depth + 1 < clen);
                        }
                    }
                    match probe {
                        ResumeProbe::Skip => {
                            self.frames.push(f);
                            assert(self.frames@.drop_last() =~= pre.frames@.drop_last());
                            proof {
                                assert forall|k: int| 0 <= k < self.frames@.len() implies frame_ok(#[trigger] self.frames@[k]) by {
                                    if k < self.frames@.len() - 1 {
                                        assert(self.frames@[k] == pre.frames@[k]);
                                    } else {
                                        assert(self.frames@[k] == f0);
                                    }
                                }
                            }
                            SyncAction::Proceed
                        },
                        _ => {
                            let child_depth = match probe {
                                ResumeProbe::Descend => f.depth + 1,
                                _ => f.depth,
                            };
                            let path = child_path(&f.dir, &name);
                            f.child_depth = child_depth;
                            f.current = name;
                            self.frames.push(f);
                            assert(self.frames@.drop_last() =~= pre.frames@.drop_last());
                            proof {
                                assert forall|k: int| 0 <= k < self.frames@.len() implies frame_ok(#[trigger] self.frames@[k]) by {
                                    if k < self.frames@.len() - 1 {
                                        assert(self.frames@[k] == pre.frames@[k]);
                                    } else {
                                        lemma_frame_ok_same(f0, self.frames@[k]);
                                    }
                                }
                            }
                            self.stage = Stage::Stat;
                            SyncAction::StatSource { path: strings_of(&path) }
                        },
                    }
                },
            }
        } else if self.mirror_deletes {
            self.stage = Stage::MirrorList;
            SyncAction::ListTarget { dir: strings_of(&self.frames[t].dir) }
        } else {
            self.leave_folder()
        }
    }

    fn on_stat(&mut self, event: SyncEvent, cancelled: bool) -> (action: SyncAction)
        requires
            old(self).wf(),
            old(self).stage == Stage::Stat,
            old(self).accepts(event),
        ensures
            final(self).wf(),
            step_post(*old(self), *final(self), event, cancelled, action),
    {
        let t = self.frames.len() - 1;
        let path = child_path(&self.frames[t].dir, &self.frames[t].current);
        match event {
            SyncEvent::Stat(Err(e)) => {
                let label = source_label_of(&path, self.sep);
                self.outcome.fail(string_from(label.as_slice()), describe_io_error(&e));
                self.stage = Stage::Loop;
                SyncAction::Proceed
            },
            SyncEvent::Stat(Ok(m)) => {
                let hidden = match m.hidden_attribute {
                    Some(h) => h,
                    None => self.frames[t].current.len() > 0 && self.frames[t].current[0] == '.',
                };
                if !self.include_hidden && hidden {
                    self.outcome.skipped = bumped(self.outcome.skipped);
                    self.stage = Stage::Loop;
                    SyncAction::Proceed
                } else if m.is_symlink {
                    let label = source_label_of(&path, self.sep);
                    self.outcome.fail(
                        string_from(label.as_slice()),
                        owned("심볼릭 링크/정션은 복사 대상에서 제외됩니다."),
                    );
                    self.stage = Stage::Loop;
                    SyncAction::Proceed
                } else if m.is_dir {
                    self.stage = Stage::CreateDir;
                    SyncAction::CreateTargetDir { path: strings_of(&path) }
                } else {
                    let ghost pre = *self;
                    let mut f = self.frames.pop().unwrap();
                    f.src_len = m.len;
                    f.src_modified = m.modified_nanos;
                    self.frames.push(f);
                    assert(self.frames@.drop_last() =~= pre.frames@.drop_last());
                    proof {
                        assert forall|k: int| 0 <= k < self.frames@.len() implies frame_ok(#[trigger] self.frames@[k]) by {
                            if k < self.frames@.len() - 1 {
                                assert(self.frames@[k] == pre.frames@[k]);
                            }
                        }
                    }
                    let label = source_label_of(&path, self.sep);
                    let listed = self.outcome.failures.len();
                    let failed = if self.outcome.truncated_failures <= usize::MAX - listed {
                        listed + self.outcome.truncated_failures
                    } else {
                        usize::MAX
                    };
                    self.stage = Stage::Report;
                    SyncAction::Report(SyncProgress {
                        current_path: string_from(label.as_slice()),
                        copied: self.outcome.copied,
                        skipped: self.outcome.skipped,
                        failed,
                    })
                }
            },
            _ => {
                proof {
                    assert(false);
                }
                SyncAction::Finished
            },
        }
    }

    fn on_create_dir(&mut self, event: SyncEvent, cancelled: bool) -> (action: SyncAction)
        requires
            old(self).wf(),
            old(self).stage == Stage::CreateDir,
            old(self).accepts(event),
        ensures
            final(self).wf(),
            step_post(*old(self), *final(self), event, cancelled, action),
    {
        let t = self.frames.len() - 1;
        let path = child_path(&self.frames[t].dir, &self.frames[t].current);
        match event {
            SyncEvent::Done(Err(e)) => {
                let label = target_label_of(&self.target_root, &path, self.sep);
                self.outcome.fail(string_from(label.as_slice()), describe_io_error(&e));
                self.stage = Stage::Loop;
                SyncAction::Proceed
            },
            SyncEvent::Done(Ok(())) => {
                let depth = self.frames[t].child_depth;
                let listed = strings_of(&path);
                let ghost pre = *self;
                self.frames.push(empty_frame(path, depth));
                assert(self.frames@.drop_last() =~= pre.frames@);
                proof {
                    assert forall|k: int| 0 <= k < self.frames@.len() implies frame_ok(#[trigger] self.frames@[k]) by {
                        if k < self.frames@.len() - 1 {
                            assert(self.frames@[k] == pre.frames@[k]);
                        }
                    }
                }
                self.stage = Stage::Listing;
                SyncAction::ListSource { dir: listed }
            },
            _ => {
                proof {
                    assert(false);
                }
                SyncAction::Finished
            },
        }
    }

    fn on_report(&mut self, event: SyncEvent, cancelled: bool) -> (action: SyncAction)
        requires
            old(self).wf(),
            old(self).stage == Stage::Report,
            old(self).accepts(event),
        ensures
            final(self).wf(),
            step_post(*old(self), *final(self), event, cancelled, action),
    {
        let t = self.frames.len() - 1;
        let path = child_path(&self.frames[t].dir, &self.frames[t].current);
        self.stage = Stage::TargetStat;
        SyncAction::StatTarget { path: strings_of(&path) }
    }

    fn on_target_stat(&mut self, event: SyncEvent, cancelled: bool) -> (action: SyncAction)
        requires
            old(self).wf(),
            old(self).stage == Stage::TargetStat,
            old(self).accepts(event),
        ensures
            final(self).wf(),
            step_post(*old(self), *final(self), event, cancelled, action),
    {
        let t = self.frames.len() - 1;
        let path = child_path(&self.frames[t].dir, &self.frames[t].current);
        match event {
            SyncEvent::TargetStat(Ok(m)) => {
                if copy_needed(self.frames[t].src_len, self.frames[t].src_modified, m.len, m.modified_nanos) {
                    self.stage = Stage::Copy;
                    SyncAction::CopyFile { path: strings_of(&path) }
                } else {
                    self.outcome.skipped = bumped(self.outcome.skipped);
                    self.stage = Stage::Loop;
                    SyncAction::Proceed
                }
            },
            SyncEvent::TargetStat(Err(e)) => {
                if e.kind == IoErrorKind::NotFound {
                    self.stage = Stage::Copy;
                    SyncAction::CopyFile { path: strings_of(&path) }
                } else {
                    let label = target_label_of(&self.target_root, &path, self.sep);
                    self.outcome.fail(string_from(label.as_slice()), describe_io_error(&e));
                    self.stage = Stage::Loop;
                    SyncAction::Proceed
                }
            },
            _ => {
                proof {
                    assert(false);
                }
                SyncAction::Finished
            },
        }
    }

    fn on_copy(&mut self, event: SyncEvent, cancelled: bool) -> (action: SyncAction)
        requires
            old(self).wf(),
            old(self).stage == Stage::Copy,
            old(self).accepts(event),
        ensures
            final(self).wf(),
            step_post(*old(self), *final(self), event, cancelled, action),
    {
        match event {
            SyncEvent::Done(Ok(())) => {
                self.outcome.copied = bumped(self.outcome.copied);
                self.stage = Stage::Loop;
                SyncAction::Proceed
            },
            SyncEvent::Done(Err(e)) => {
                let t = self.frames.len() - 1;
                let path = child_path(&self.frames[t].dir, &self.frames[t].current);
                let label = source_label_of(&path, self.sep);
                self.outcome.fail(string_from(label.as_slice()), describe_io_error(&e));
                self.stage = Stage::Loop;
                SyncAction::Proceed
            },
            _ => {
                proof {
                    assert(false);
                }
                SyncAction::Finished
            },
        }
    }

    fn on_mirror_list(&mut self, event: SyncEvent, cancelled: bool) -> (action: SyncAction)
        requires
            old(self).wf(),
            old(self).stage == Stage::MirrorList,
            old(self).accepts(event),
        ensures
            final(self).wf(),
            step_post(*old(self), *final(self), event, cancelled, action),
    {
        let ghost pre = *self;
        match event {
            SyncEvent::Listed(Err(e)) => {
                let t = self.frames.len() - 1;
                let label = target_label_of(&self.target_root, &self.frames[t].dir, self.sep);
                self.outcome.fail(string_from(label.as_slice()), describe_io_error(&e));
                self.leave_folder()
            },
            SyncEvent::Listed(Ok(items)) => {
                let mut f = self.frames.pop().unwrap();
                let removals = names_not_seen(&items, &f.seen);
                proof {
                    assert(frame_ok(f));
                    assert forall|r: int| 0 <= r < removals@.len() implies !names_listed(f.entries@).contains(#[trigger] removals@[r]@) by {
                        if names_listed(f.entries@).contains(removals@[r]@) {
                            let i = choose|i: int| 0 <= i < f.entries@.len() && f.entries@[i].error is None && f.entries@[i].name@ == removals@[r]@;
                            assert(f.entries@[i].error is None);
                        }
                    }
                }
                f.removals = removals;
                f.rpos = 0;
                self.frames.push(f);
                assert(self.frames@.drop_last() =~= pre.frames@.drop_last());
                proof {
                    assert forall|k: int| 0 <= k < self.frames@.len() implies frame_ok(#[trigger] self.frames@[k]) by {
                        if k < self.frames@.len() - 1 {
                            assert(self.frames@[k] == pre.frames@[k]);
                        } else {
                            lemma_frame_ok_same(pre.frames@[pre.frames@.len() - 1], self.frames@[k]);
                        }
                    }
                }
                self.stage = Stage::MirrorLoop;
                SyncAction::Proceed
            },
            _ => {
                proof {
                    assert(false);
                }
                SyncAction::Finished
            },
        }
    }

    fn on_mirror_loop(&mut self, event: SyncEvent, cancelled: bool) -> (action: SyncAction)
        requires
            old(self).wf(),
            old(self).stage == Stage::MirrorLoop,
            old(self).accepts(event),
        ensures
            final(self).wf(),
            step_post(*old(self), *final(self), event, cancelled, action),
    {
        let t = self.frames.len() - 1;
        if self.frames[t].rpos < self.frames[t].removals.len() {
            let r = self.frames[t].rpos;
            let path = child_path(&self.frames[t].dir, &self.frames[t].removals[r]);
            self.stage = Stage::Remove;
            let listed = strings_of(&path);
            proof {
                assert(path_view(listed@).drop_last() =~= views(self.top().dir@));
            }
            SyncAction::RemoveTarget { path: listed }
        } else {
            self.leave_folder()
        }
    }

    fn on_remove(&mut self, event: SyncEvent, cancelled: bool) -> (action: SyncAction)
        requires
            old(self).wf(),
            old(self).stage == Stage::Remove,
            old(self).accepts(event),
        ensures
            final(self).wf(),
            step_post(*old(self), *final(self), event, cancelled, action),
    {
        let ghost pre = *self;
        let t = self.frames.len() - 1;
        let r = self.frames[t].rpos;
        let rl = self.frames[t].removals.len();
        assert(r < rl);
        match event {
            SyncEvent::Done(Ok(())) => {
                self.outcome.deleted = bumped(self.outcome.deleted);
            },
            SyncEvent::Done(Err(e)) => {
                let path = child_path(&self.frames[t].dir, &self.frames[t].removals[r]);
                let label = target_label_of(&self.target_root, &path, self.sep);
                self.outcome.fail(string_from(label.as_slice()), describe_io_error(&e));
            },
            _ => {
                proof {
                    assert(false);
                }
            },
        }
        assert(self.frames == pre.frames);
        let mut f = self.frames.pop().unwrap();
        f.rpos = r + 1;
        self.frames.push(f);
        assert(self.frames@.drop_last() =~= pre.frames@.drop_last());
        proof {
            assert forall|k: int| 0 <= k < self.frames@.len() implies frame_ok(#[trigger] self.frames@[k]) by {
                if k < self.frames@.len() - 1 {
                    assert(self.frames@[k] == pre.frames@[k]);
                } else {
                    lemma_frame_ok_same(pre.frames@[pre.frames@.len() - 1], self.frames@[k]);
                }
            }
        }
        self.stage = Stage::MirrorLoop;
        SyncAction::Proceed
    }

    fn on_start(&mut self, event: SyncEvent, cancelled: bool) -> (action: SyncAction)
        requires
            old(self).wf(),
            old(self).stage == Stage::Start,
            old(self).accepts(event),
        ensures
            final(self).wf(),
            step_post(*old(self), *final(self), event, cancelled, action),
    {
        let src = trim_chars(self.source_text.as_slice());
        if src.len() == 0 || self.target_root.len() == 0 {
            self.outcome.fail(owned("(설정)"), owned("원본 또는 대상 폴더가 비어 있습니다."));
            self.outcome.resumed = self.resuming;
            self.stage = Stage::Finished;
            return SyncAction::Finished;
        }
        self.stage = Stage::CheckSource;
        SyncAction::CheckSource
    }
}

} // verus!
