//! Editing the list of sync jobs and asking for runs.
//!
//! Jobs are named by their id, never by their position, when a run is asked
//! for: positions shift as jobs are added and removed. The run queue holds ids,
//! each once, and the background loop takes it whole.

use vstd::prelude::*;
use crate::config::SyncJob;
use crate::text::{chars_of, owned, trim, trim_chars};

verus! {

/// Why a run of one job could not be asked for.
#[derive(Clone, Copy, Debug, PartialEq, Eq, Structural)]
pub enum SyncRequestError {
    /// No job stands at that position.
    NoSuchJob,
    /// The source or the target folder is blank.
    MissingFolders,
}

/// The ids in a run queue.
pub open spec fn queued_ids(run_now: Seq<String>) -> Seq<Seq<char>> {
    run_now.map_values(|s: String| s@)
}

/// The ids of a list of jobs, in order.
pub open spec fn job_ids(jobs: Seq<SyncJob>) -> Seq<Seq<char>> {
    jobs.map_values(|j: SyncJob| j.id@)
}

/// The queue after asking for a run of `id`: unchanged when it is queued already.
pub open spec fn with_request(ids: Seq<Seq<char>>, id: Seq<char>) -> Seq<Seq<char>> {
    if ids.contains(id) { ids } else { ids.push(id) }
}

/// Asking for runs never queues an id twice.
pub proof fn lemma_run_queue_holds_each_id_once(ids: Seq<Seq<char>>, id: Seq<char>)
    requires
        ids.no_duplicates(),
    ensures
        with_request(ids, id).no_duplicates(),
        with_request(ids, id).contains(id),
{
    if !ids.contains(id) {
        let r = ids.push(id);
        assert forall|i: int, j: int| 0 <= i < r.len() && 0 <= j < r.len() && i != j implies r[i] != r[j] by {
            if i < ids.len() && j < ids.len() {
            } else if i == ids.len() {
                assert(r[j] == ids[j]);
            } else {
                assert(r[i] == ids[i]);
            }
        }
        assert(r[ids.len() as int] == id);
    }
}

/// Whether a job has both folders filled in.
pub open spec fn has_folders(job: SyncJob) -> bool {
    trim(job.source@).len() > 0 && trim(job.target@).len() > 0
}

/// `job` with the three inputs of the job editor applied, trimmed. A resume
/// point is kept only while both folders stay as they were: resumed against
/// another folder, a run would pass over the new source's first entries.
pub open spec fn captured(job: SyncJob, edited: SyncJob, name: Seq<char>, source: Seq<char>, target: Seq<char>) -> bool {
    &&& edited.name@ == trim(name)
    &&& edited.source@ == trim(source)
    &&& edited.target@ == trim(target)
    &&& edited.id == job.id
    &&& edited.enabled == job.enabled
    &&& edited.interval_secs == job.interval_secs
    &&& edited.watch_mode == job.watch_mode
    &&& edited.symlink_mode == job.symlink_mode
    &&& edited.mirror_deletes == job.mirror_deletes
    &&& edited.include_hidden == job.include_hidden
    &&& edited.exclude_patterns == job.exclude_patterns
    &&& edited.last_run_unix == job.last_run_unix
    &&& edited.resume_cursor == (if trim(source) == job.source@ && trim(target) == job.target@ {
        job.resume_cursor
    } else {
        None
    })
}

/// The selection after removing the job at `index` from a list that now holds
/// `remaining` jobs: the job that took its place, or the last one, or none.
pub open spec fn selection_after_removal(index: int, remaining: int) -> Option<usize> {
    if remaining == 0 {
        None
    } else if index < remaining {
        Some(index as usize)
    } else {
        Some((remaining - 1) as usize)
    }
}

fn trimmed(s: &str) -> (r: String)
    ensures
        r@ == trim(s@),
{
    let chars = chars_of(s);
    let t = trim_chars(chars.as_slice());
    crate::text::string_from(t.as_slice())
}

/// Writes the job editor's name and folders, trimmed, into the job at `index`,
/// dropping its resume point when a folder changed; false (and nothing changed)
/// when there is no such job.
pub fn capture_sync_inputs(jobs: &mut Vec<SyncJob>, index: usize, name: &str, source: &str, target: &str) -> (done: bool)
    ensures
        done == (index < old(jobs)@.len()),
        !done ==> final(jobs)@ == old(jobs)@,
        done ==> {
            &&& final(jobs)@.len() == old(jobs)@.len()
            &&& captured(old(jobs)@[index as int], final(jobs)@[index as int], name@, source@, target@)
            &&& forall|i: int| 0 <= i < old(jobs)@.len() && i != index ==> final(jobs)@[i] == old(jobs)@[i]
        },
{
    if index >= jobs.len() {
        return false;
    }
    let mut job = jobs.remove(index);
    let new_source = trimmed(source);
    let new_target = trimmed(target);
    let same_source = crate::text::chars_equal(
        chars_of(new_source.as_str()).as_slice(),
        chars_of(job.source.as_str()).as_slice(),
    );
    let same_target = crate::text::chars_equal(
        chars_of(new_target.as_str()).as_slice(),
        chars_of(job.target.as_str()).as_slice(),
    );
    if !(same_source && same_target) {
        job.resume_cursor = None;
    }
    job.name = trimmed(name);
    job.source = new_source;
    job.target = new_target;
    jobs.insert(index, job);
    true
}

/// Appends a new job with the fresh id and every other setting at its default,
/// and returns its position (the job the editor then shows).
pub fn add_sync_job(jobs: &mut Vec<SyncJob>, fresh_id: String) -> (index: usize)
    requires
        old(jobs)@.len() < usize::MAX,
    ensures
        index == old(jobs)@.len(),
        final(jobs)@.len() == old(jobs)@.len() + 1,
        final(jobs)@.drop_last() == old(jobs)@,
        final(jobs)@.last().id == fresh_id,
        final(jobs)@.last().name@.len() == 0,
        final(jobs)@.last().source@.len() == 0,
        final(jobs)@.last().target@.len() == 0,
        final(jobs)@.last().enabled,
        final(jobs)@.last().interval_secs == 60,
        final(jobs)@.last().last_run_unix is None,
        final(jobs)@.last().resume_cursor is None,
{
    let ghost before = jobs@;
    jobs.push(SyncJob::with_id(fresh_id));
    assert(jobs@.drop_last() =~= before);
    jobs.len() - 1
}

/// Removes the job at `index`. Returns the removed job and the new selection
/// (see [`selection_after_removal`]), or `None` (nothing changed) when there is
/// no such job.
pub fn remove_sync_job(jobs: &mut Vec<SyncJob>, index: usize) -> (r: Option<(SyncJob, Option<usize>)>)
    ensures
        index >= old(jobs)@.len() ==> r is None && final(jobs)@ == old(jobs)@,
        index < old(jobs)@.len() ==> {
            &&& final(jobs)@ == old(jobs)@.remove(index as int)
            &&& r == Some((old(jobs)@[index as int], selection_after_removal(index as int, final(jobs)@.len() as int)))
        },
{
    if index >= jobs.len() {
        return None;
    }
    let removed = jobs.remove(index);
    let remaining = jobs.len();
    let selection = if remaining == 0 {
        None
    } else if index < remaining {
        Some(index)
    } else {
        Some(remaining - 1)
    };
    Some((removed, selection))
}

/// Puts `id` in the run queue unless it is there already.
pub fn queue_run(run_now: &mut Vec<String>, id: &str)
    ensures
        queued_ids(final(run_now)@) == with_request(queued_ids(old(run_now)@), id@),
{
    let target = chars_of(id);
    let mut i: usize = 0;
    while i < run_now.len()
        invariant
            i <= run_now@.len(),
            run_now@ == old(run_now)@,
            target@ == id@,
            forall|t: int| 0 <= t < i ==> run_now@[t]@ != id@,
        decreases run_now@.len() - i,
    {
        let other = chars_of(run_now[i].as_str());
        if crate::text::chars_equal(other.as_slice(), target.as_slice()) {
            proof {
                assert(queued_ids(run_now@)[i as int] == id@);
                assert(queued_ids(run_now@).contains(id@));
            }
            return;
        }
        i = i + 1;
    }
    proof {
        assert(!queued_ids(run_now@).contains(id@)) by {
            if queued_ids(run_now@).contains(id@) {
                let k = choose|k: int| 0 <= k < queued_ids(run_now@).len() && queued_ids(run_now@)[k] == id@;
                assert(run_now@[k]@ == id@);
            }
        }
    }
    run_now.push(owned(id));
    assert(queued_ids(run_now@) =~= queued_ids(old(run_now)@).push(id@));
}

/// Asks for a run of the job at `index`: its id joins the run queue (once), and
/// is returned. A job without both folders is refused, as is a position with no
/// job; the queue is then left alone.
pub fn request_sync_job(jobs: &Vec<SyncJob>, index: usize, run_now: &mut Vec<String>) -> (r: Result<String, SyncRequestError>)
    ensures
        index >= jobs@.len() ==> r == Err::<String, SyncRequestError>(SyncRequestError::NoSuchJob),
        index < jobs@.len() && !has_folders(jobs@[index as int])
            ==> r == Err::<String, SyncRequestError>(SyncRequestError::MissingFolders),
        r is Err ==> final(run_now)@ == old(run_now)@,
        index < jobs@.len() && has_folders(jobs@[index as int]) ==> {
            &&& r matches Ok(id) && id == jobs@[index as int].id
            &&& queued_ids(final(run_now)@) == with_request(queued_ids(old(run_now)@), jobs@[index as int].id@)
        },
{
    if index >= jobs.len() {
        return Err(SyncRequestError::NoSuchJob);
    }
    let job = &jobs[index];
    let source = trimmed(job.source.as_str());
    let target = trimmed(job.target.as_str());
    if source.as_str().is_empty() || target.as_str().is_empty() {
        return Err(SyncRequestError::MissingFolders);
    }
    queue_run(run_now, job.id.as_str());
    Ok(job.id.clone())
}

/// Asks for a run of every job: the run queue becomes the jobs' ids, in list
/// order. False (and the queue left alone) when there are no jobs.
pub fn request_sync_all(jobs: &Vec<SyncJob>, run_now: &mut Vec<String>) -> (requested: bool)
    ensures
        requested == (jobs@.len() > 0),
        !requested ==> final(run_now)@ == old(run_now)@,
        requested ==> queued_ids(final(run_now)@) == job_ids(jobs@),
{
    if jobs.len() == 0 {
        return false;
    }
    let mut ids: Vec<String> = Vec::new();
    let mut i: usize = 0;
    while i < jobs.len()
        invariant
            i <= jobs@.len(),
            queued_ids(ids@) == job_ids(jobs@.subrange(0, i as int)),
        decreases jobs@.len() - i,
    {
        let id = jobs[i].id.clone();
        assert(id == jobs@[i as int].id);
        let ghost before = ids@;
        ids.push(id);
        proof {
            let next = jobs@.subrange(0, i + 1);
            assert(next.drop_last() =~= jobs@.subrange(0, i as int));
            assert(queued_ids(ids@) =~= queued_ids(before).push(id@));
            assert(job_ids(next) =~= job_ids(next.drop_last()).push(next.last().id@));
        }
        i = i + 1;
    }
    assert(jobs@.subrange(0, jobs@.len() as int) =~= jobs@);
    *run_now = ids;
    true
}

} // verus!
