//! Debouncing of file-change notices for jobs that run on changes: a burst of
//! changes makes one run, two seconds after the last change.

use vstd::prelude::*;
use crate::text::{chars_equal, chars_of, string_from};

verus! {

/// Changes are quiet for this long (milliseconds) before the job runs.
pub const REALTIME_DEBOUNCE_MS: u64 = 2000;

/// For each job with pending changes, when the last change was seen
/// (milliseconds on a monotonic clock).
#[derive(Clone, Debug)]
pub struct DebounceState {
    pub pending: Vec<(String, u64)>,
}

pub open spec fn ids_of(p: Seq<(String, u64)>) -> Seq<Seq<char>> {
    p.map_values(|e: (String, u64)| e.0@)
}

impl DebounceState {
    /// Job id → time of its last change.
    pub open spec fn view(&self) -> Map<Seq<char>, u64> {
        Map::new(
            |id: Seq<char>| ids_of(self.pending@).contains(id),
            |id: Seq<char>| self.pending@[ids_of(self.pending@).index_of(id)].1,
        )
    }

    /// Each job is listed once.
    pub open spec fn wf(&self) -> bool {
        ids_of(self.pending@).no_duplicates()
    }

    pub fn new() -> (r: DebounceState)
        ensures
            r.wf(),
            r.view() == Map::<Seq<char>, u64>::empty(),
    {
        let r = DebounceState { pending: Vec::new() };
        assert(r.view() =~= Map::<Seq<char>, u64>::empty());
        r
    }

    fn find(&self, id: &Vec<char>) -> (r: Option<usize>)
        requires
            self.wf(),
        ensures
            match r {
                Some(i) => i < self.pending@.len() && ids_of(self.pending@)[i as int] == id@
                    && ids_of(self.pending@).index_of(id@) == i,
                None => !ids_of(self.pending@).contains(id@),
            },
    {
        let mut i: usize = 0;
        while i < self.pending.len()
            invariant
                self.wf(),
                i <= self.pending@.len(),
                forall|k: int| 0 <= k < i ==> ids_of(self.pending@)[k] != id@,
            decreases self.pending@.len() - i,
        {
            if chars_equal(chars_of(self.pending[i].0.as_str()).as_slice(), id.as_slice()) {
                proof {
                    let ids = ids_of(self.pending@);
                    assert(ids[i as int] == id@);
                    assert(ids.contains(id@));
                    let j = ids.index_of(id@);
                    assert(ids[j] == id@);
                    if j != i {
                        assert(ids[j] == ids[i as int]);
                    }
                }
                return Some(i);
            }
            i = i + 1;
        }
        None
    }

    proof fn lemma_remove_at(&self, i: int, next: Seq<(String, u64)>)
        requires
            self.wf(),
            0 <= i < self.pending@.len(),
            next == self.pending@.remove(i),
        ensures
            ids_of(next).no_duplicates(),
            forall|id: Seq<char>| #[trigger] ids_of(next).contains(id) == (ids_of(self.pending@).contains(id) && id != ids_of(self.pending@)[i]),
            forall|id: Seq<char>| #[trigger] ids_of(next).contains(id) ==> next[ids_of(next).index_of(id)].1 == self.pending@[ids_of(self.pending@).index_of(id)].1,
    {
        let ids = ids_of(self.pending@);
        let nids = ids_of(next);
        assert(nids =~= ids.remove(i));
        assert forall|id: Seq<char>| #[trigger] nids.contains(id) == (ids.contains(id) && id != ids[i]) by {
            if nids.contains(id) {
                let k = choose|k: int| 0 <= k < nids.len() && nids[k] == id;
                if k < i {
                    assert(ids[k] == id);
                } else {
                    assert(ids[k + 1] == id);
                }
            }
            if ids.contains(id) && id != ids[i] {
                let k = choose|k: int| 0 <= k < ids.len() && ids[k] == id;
                if k < i {
                    assert(nids[k] == id);
                } else {
                    assert(nids[k - 1] == id);
                }
            }
        }
        assert forall|id: Seq<char>| #[trigger] nids.contains(id) implies next[nids.index_of(id)].1 == self.pending@[ids.index_of(id)].1 by {
            let k = nids.index_of(id);
            let j = ids.index_of(id);
            if k < i {
                assert(ids[k] == id);
                assert(k == j);
            } else {
                assert(ids[k + 1] == id);
                assert(k + 1 == j);
            }
        }
    }

    /// A change of job `id` was seen at `at_ms`: its quiet period starts again.
    pub fn mark(&mut self, id: String, at_ms: u64)
        requires
            old(self).wf(),
        ensures
            final(self).wf(),
            final(self).view() == old(self).view().insert(id@, at_ms),
    {
        let key = chars_of(id.as_str());
        match self.find(&key) {
            Some(i) => {
                let ghost before = self.pending@;
                self.pending.set(i, (id, at_ms));
                proof {
                    let ids = ids_of(before);
                    assert(ids_of(self.pending@) =~= ids.update(i as int, key@));
                    assert(ids.update(i as int, key@) =~= ids);
                    assert(self.view() =~= old(self).view().insert(key@, at_ms));
                }
            },
            None => {
                let ghost before = self.pending@;
                self.pending.push((id, at_ms));
                proof {
                    let ids = ids_of(before);
                    let nids = ids_of(self.pending@);
                    assert(nids =~= ids.push(key@));
                    assert forall|a: int, b: int| 0 <= a < nids.len() && 0 <= b < nids.len() && a != b implies nids[a] != nids[b] by {
                        if a < ids.len() && b < ids.len() {
                            assert(nids[a] == ids[a] && nids[b] == ids[b]);
                        } else if a < ids.len() {
                            assert(nids[a] == ids[a]);
                            assert(ids.contains(ids[a]));
                        } else if b < ids.len() {
                            assert(nids[b] == ids[b]);
                            assert(ids.contains(ids[b]));
                        }
                    }
                    assert forall|x: Seq<char>| #[trigger] nids.contains(x) == (ids.contains(x) || x == key@) by {
                        if nids.contains(x) {
                            let k = choose|k: int| 0 <= k < nids.len() && nids[k] == x;
                            if k < ids.len() {
                                assert(ids[k] == x);
                            }
                        }
                        if ids.contains(x) {
                            let k = choose|k: int| 0 <= k < ids.len() && ids[k] == x;
                            assert(nids[k] == x);
                        }
                        if x == key@ {
                            assert(nids[ids.len() as int] == x);
                        }
                    }
                    assert forall|x: Seq<char>| #[trigger] nids.contains(x) && x != key@ implies nids.index_of(x) == ids.index_of(x) by {
                        let k = ids.index_of(x);
                        assert(ids[k] == x);
                        assert(nids[k] == x);
                    }
                    assert(nids[ids.len() as int] == key@);
                    assert(nids.contains(key@));
                    let w = nids.index_of(key@);
                    assert(0 <= w < nids.len() && nids[w] == key@);
                    if w != ids.len() {
                        assert(nids[w] != nids[ids.len() as int]);
                    }
                    assert(nids.index_of(key@) == ids.len());
                    assert(self.view() =~= old(self).view().insert(key@, at_ms));
                }
            },
        }
    }

    /// Forgets the pending changes of job `id`.
    pub fn clear(&mut self, id: &str)
        requires
            old(self).wf(),
        ensures
            final(self).wf(),
            final(self).view() == old(self).view().remove(id@),
    {
        let key = chars_of(id);
        match self.find(&key) {
            Some(i) => {
                let ghost before = *self;
                self.pending.remove(i);
                proof {
                    before.lemma_remove_at(i as int, self.pending@);
                    assert(self.view() =~= old(self).view().remove(id@));
                }
            },
            None => {
                assert(self.view() =~= old(self).view().remove(id@));
            },
        }
    }

    /// Whether job `id` is due at `now_ms`: it has pending changes and none for
    /// [`REALTIME_DEBOUNCE_MS`]. A due job's pending changes are consumed.
    pub fn ready(&mut self, id: &str, now_ms: u64) -> (r: bool)
        requires
            old(self).wf(),
        ensures
            final(self).wf(),
            r == (old(self).view().contains_key(id@) && now_ms >= old(self).view()[id@] + REALTIME_DEBOUNCE_MS),
            r ==> final(self).view() == old(self).view().remove(id@),
            !r ==> final(self).view() == old(self).view(),
    {
        let key = chars_of(id);
        match self.find(&key) {
            Some(i) => {
                let since = self.pending[i].1;
                if now_ms < since || now_ms - since < REALTIME_DEBOUNCE_MS {
                    return false;
                }
                let ghost before = *self;
                self.pending.remove(i);
                proof {
                    before.lemma_remove_at(i as int, self.pending@);
                    assert(self.view() =~= old(self).view().remove(id@));
                }
                true
            },
            None => false,
        }
    }
}

} // verus!

verus! {

/// What the book keeps of one job: how it waits, the folder watched for it (when
/// a watcher runs), and whether watching it failed (then it is not tried again
/// until its settings change).
#[derive(Clone, Debug)]
pub struct WatchEntry {
    pub id: String,
    pub mode: crate::config::WatchMode,
    pub watched: Option<String>,
    pub failed: bool,
}

/// Work for the caller after the jobs changed.
#[derive(Debug)]
pub enum WatchChange {
    /// Forget the job's watcher (stop it when `unwatch`) and its pending changes.
    Reset { id: String, unwatch: bool },
    /// Start watching `path` for the job.
    Watch { id: String, path: String },
}

/// The watchers of the jobs that run on changes.
#[derive(Clone, Debug)]
pub struct WatchBook {
    pub entries: Vec<WatchEntry>,
}

pub open spec fn entry_ids(e: Seq<WatchEntry>) -> Seq<Seq<char>> {
    e.map_values(|x: WatchEntry| x.id@)
}

/// The index of the last job with this id.
pub open spec fn is_last_with_id(jobs: Seq<crate::config::SyncJob>, i: int) -> bool {
    forall|j: int| i < j < jobs.len() ==> jobs[j].id@ != jobs[i].id@
}

/// The change forgets the entry `e` (stopping its watcher when it has one).
pub open spec fn resets(c: WatchChange, e: WatchEntry) -> bool {
    c matches WatchChange::Reset { id, unwatch } && id@ == e.id@ && unwatch == (e.watched is Some)
}

/// Every entry of `entries` whose job is no longer configured is forgotten by one
/// of `changes`.
pub open spec fn gone_reset(entries: Seq<WatchEntry>, upto: int, jobs: Seq<crate::config::SyncJob>, changes: Seq<WatchChange>) -> bool {
    forall|q: int| 0 <= q < upto && !has_job(jobs, #[trigger] entries[q].id@) ==> exists|t: int|
        0 <= t < changes.len() && resets(#[trigger] changes[t], entries[q])
}

/// The entry kept for a job no longer fits it: the mode changed, or it watches
/// another folder.
pub open spec fn changed(o: WatchEntry, job: crate::config::SyncJob) -> bool {
    o.mode != job.watch_mode || (o.watched matches Some(p) && p@ != job.source@)
}

/// A reset forgets an entry of `book` whose job is gone, or no longer fits
/// (the last job with its id changed mode or folder).
pub open spec fn reset_justified(c: WatchChange, book: Seq<WatchEntry>, jobs: Seq<crate::config::SyncJob>) -> bool {
    c is Reset ==> exists|q: int|
        0 <= q < book.len() && #[trigger] resets(c, book[q]) && (!has_job(jobs, book[q].id@) || exists|i: int|
            0 <= i < jobs.len() && is_last_with_id(jobs, i) && jobs[i].id@ == book[q].id@ && changed(book[q], jobs[i]))
}

/// A watch is asked only for an entry, among `next`, that neither watches nor
/// has failed.
pub open spec fn watch_wanted(c: WatchChange, next: Seq<WatchEntry>) -> bool {
    c matches WatchChange::Watch { id, .. } ==> exists|q: int|
        0 <= q < next.len() && #[trigger] next[q].id@ == id@ && next[q].watched is None && !next[q].failed
}

/// The same watcher, compared by the folder watched.
pub open spec fn same_watch(a: Option<String>, b: Option<String>) -> bool {
    match (a, b) {
        (Some(x), Some(y)) => x@ == y@,
        (None, None) => true,
        _ => false,
    }
}

/// How the entry `e` for `job` comes from the entry the book had for it: a
/// fitting one is kept as it was (watcher and failure alike); one that no longer
/// fits is forgotten by one of `changes` and starts afresh, as a new one does.
pub open spec fn made(e: WatchEntry, prior: Option<WatchEntry>, job: crate::config::SyncJob, changes: Seq<WatchChange>) -> bool {
    match prior {
        Some(o) => if changed(o, job) {
            e.watched is None && !e.failed && exists|t: int| 0 <= t < changes.len() && resets(#[trigger] changes[t], o)
        } else {
            same_watch(e.watched, o.watched) && e.failed == o.failed
        },
        None => e.watched is None && !e.failed,
    }
}

/// Each of the first `upto` jobs (the last with its id) has an entry made from
/// the book's entry for it.
pub open spec fn all_made(
    next: Seq<WatchEntry>,
    book: WatchBook,
    changes: Seq<WatchChange>,
    jobs: Seq<crate::config::SyncJob>,
    upto: int,
) -> bool {
    forall|t: int| 0 <= t < upto && is_last_with_id(jobs, t) ==> exists|q: int| 0 <= q < next.len() && next[q].id@ == jobs[t].id@
        && #[trigger] made(next[q], book.entry(jobs[t].id@), jobs[t], changes)
}

/// Whether a job with this id is configured.
pub open spec fn has_job(jobs: Seq<crate::config::SyncJob>, id: Seq<char>) -> bool {
    exists|i: int| 0 <= i < jobs.len() && jobs[i].id@ == id
}

impl WatchBook {
    pub open spec fn wf(&self) -> bool {
        entry_ids(self.entries@).no_duplicates()
    }

    /// The entry kept for a job id.
    pub open spec fn entry(&self, id: Seq<char>) -> Option<WatchEntry> {
        if entry_ids(self.entries@).contains(id) {
            Some(self.entries@[entry_ids(self.entries@).index_of(id)])
        } else {
            None
        }
    }

    pub fn new() -> (r: WatchBook)
        ensures
            r.wf(),
            r.entries@.len() == 0,
    {
        let r = WatchBook { entries: Vec::new() };
        assert(entry_ids(r.entries@) =~= Seq::<Seq<char>>::empty());
        r
    }

    fn find(&self, id: &Vec<char>) -> (r: Option<usize>)
        requires
            self.wf(),
        ensures
            match r {
                Some(i) => i < self.entries@.len() && self.entries@[i as int].id@ == id@
                    && entry_ids(self.entries@).index_of(id@) == i,
                None => !entry_ids(self.entries@).contains(id@),
            },
    {
        let mut i: usize = 0;
        while i < self.entries.len()
            invariant
                self.wf(),
                i <= self.entries@.len(),
                forall|k: int| 0 <= k < i ==> entry_ids(self.entries@)[k] != id@,
            decreases self.entries@.len() - i,
        {
            if chars_equal(chars_of(self.entries[i].id.as_str()).as_slice(), id.as_slice()) {
                proof {
                    let ids = entry_ids(self.entries@);
                    assert(ids[i as int] == id@);
                    assert(ids.contains(id@));
                    let j = ids.index_of(id@);
                    assert(0 <= j < ids.len() && ids[j] == id@);
                    if j != i {
                        assert(ids[j] != ids[i as int]);
                    }
                }
                return Some(i);
            }
            i = i + 1;
        }
        None
    }

    /// The caller could not watch the job: it is not tried again until its
    /// settings change. Returns whether this failure is new (to be reported) and
    /// whether a watcher must be stopped.
    pub fn watch_failed(&mut self, id: &str) -> (r: (bool, bool))
        requires
            old(self).wf(),
        ensures
            final(self).wf(),
            r.0 == !(old(self).entry(id@) matches Some(e) && e.failed),
            r.1 == (old(self).entry(id@) matches Some(e) && e.watched is Some),
            match old(self).entry(id@) {
                Some(e) => final(self).entries@ == old(self).entries@.update(
                    entry_ids(old(self).entries@).index_of(id@),
                    WatchEntry { failed: true, watched: None, ..e },
                ),
                None => final(self).entries@ == old(self).entries@,
            },
    {
        let key = chars_of(id);
        match self.find(&key) {
            Some(i) => {
                proof {
                    assert(entry_ids(self.entries@)[i as int] == key@);
                    assert(entry_ids(self.entries@).contains(key@));
                }
                let was_failed = self.entries[i].failed;
                let was_watching = self.entries[i].watched.is_some();
                let ghost before = self.entries@;
                self.entries[i].failed = true;
                self.entries[i].watched = None;
                proof {
                    assert(entry_ids(self.entries@) =~= entry_ids(before));
                }
                (!was_failed, was_watching)
            },
            None => (true, false),
        }
    }

    /// The caller started watching `path` for the job.
    pub fn watch_started(&mut self, id: &str, path: String)
        requires
            old(self).wf(),
        ensures
            final(self).wf(),
            match old(self).entry(id@) {
                Some(e) => final(self).entries@ == old(self).entries@.update(
                    entry_ids(old(self).entries@).index_of(id@),
                    WatchEntry { watched: Some(path), ..e },
                ),
                None => final(self).entries@ == old(self).entries@,
            },
    {
        let key = chars_of(id);
        match self.find(&key) {
            Some(i) => {
                proof {
                    assert(entry_ids(self.entries@)[i as int] == key@);
                    assert(entry_ids(self.entries@).contains(key@));
                }
                let ghost before = self.entries@;
                self.entries[i].watched = Some(path);
                proof {
                    assert(entry_ids(self.entries@) =~= entry_ids(before));
                }
            },
            None => {},
        }
    }

    /// Whether a watcher runs for the job (changes then count).
    pub fn is_watching(&self, id: &str) -> (r: bool)
        requires
            self.wf(),
        ensures
            r == (self.entry(id@) matches Some(e) && e.watched is Some),
    {
        let key = chars_of(id);
        match self.find(&key) {
            Some(i) => {
                proof {
                    assert(entry_ids(self.entries@)[i as int] == key@);
                    assert(entry_ids(self.entries@).contains(key@));
                }
                self.entries[i].watched.is_some()
            },
            None => false,
        }
    }
}

} // verus!

verus! {

fn copy_string(s: &String) -> (r: String)
    ensures
        r@ == s@,
{
    string_from(chars_of(s.as_str()).as_slice())
}

fn copy_opt_string(s: &Option<String>) -> (r: Option<String>)
    ensures
        match (r, *s) {
            (Some(a), Some(b)) => a@ == b@,
            (None, None) => true,
            _ => false,
        },
{
    match s {
        Some(x) => Some(copy_string(x)),
        None => None,
    }
}

fn job_index_with_id(jobs: &Vec<crate::config::SyncJob>, id: &Vec<char>) -> (r: bool)
    ensures
        r == has_job(jobs@, id@),
{
    let mut i: usize = 0;
    while i < jobs.len()
        invariant
            i <= jobs@.len(),
            forall|k: int| 0 <= k < i ==> jobs@[k].id@ != id@,
        decreases jobs@.len() - i,
    {
        if chars_equal(chars_of(jobs[i].id.as_str()).as_slice(), id.as_slice()) {
            return true;
        }
        i = i + 1;
    }
    false
}

fn later_has_id(jobs: &Vec<crate::config::SyncJob>, i: usize) -> (r: bool)
    requires
        i < jobs@.len(),
    ensures
        r == !is_last_with_id(jobs@, i as int),
{
    let id = chars_of(jobs[i].id.as_str());
    let n = jobs.len();
    assert(i < n);
    let mut j = i + 1;
    while j < jobs.len()
        invariant
            i < j <= jobs@.len(),
            id@ == jobs@[i as int].id@,
            forall|k: int| i < k < j ==> jobs@[k].id@ != jobs@[i as int].id@,
        decreases jobs@.len() - j,
    {
        if chars_equal(chars_of(jobs[j].id.as_str()).as_slice(), id.as_slice()) {
            return true;
        }
        j = j + 1;
    }
    false
}

/// An entry made for a job: its id, its mode, and a watched folder only if it is
/// the job's source.
pub open spec fn entry_fits(e: WatchEntry, job: crate::config::SyncJob) -> bool {
    e.id@ == job.id@ && e.mode == job.watch_mode && (e.watched matches Some(p) ==> p@ == job.source@)
}

/// `id` is the id of one of the first `upto` jobs, the last with that id.
pub open spec fn belongs(id: Seq<char>, jobs: Seq<crate::config::SyncJob>, upto: int) -> bool {
    exists|t: int| 0 <= t < upto && is_last_with_id(jobs, t) && jobs[t].id@ == id
}

/// Every entry belongs to one of the first `upto` jobs (the last with its id).
pub open spec fn from_jobs(next: Seq<WatchEntry>, jobs: Seq<crate::config::SyncJob>, upto: int) -> bool {
    forall|q: int| 0 <= q < next.len() ==> belongs(#[trigger] next[q].id@, jobs, upto)
}

/// Each of the first `upto` jobs (the last with its id) has a fitting entry.
pub open spec fn covered(next: Seq<WatchEntry>, jobs: Seq<crate::config::SyncJob>, upto: int) -> bool {
    forall|t: int| 0 <= t < upto && is_last_with_id(jobs, t) ==> exists|q: int| 0 <= q < next.len() && #[trigger] entry_fits(next[q], jobs[t])
}

/// `c` asks to watch `path` for the job `id`.
pub open spec fn asks(c: WatchChange, id: Seq<char>, path: Seq<char>) -> bool {
    c matches WatchChange::Watch { id: a, path: b } && a@ == id && b@ == path
}

/// A watch of `path` was asked for the job `id`.
pub open spec fn watch_asked(changes: Seq<WatchChange>, id: Seq<char>, path: Seq<char>) -> bool {
    exists|k: int| 0 <= k < changes.len() && #[trigger] asks(changes[k], id, path)
}

/// The entry of a job that runs on changes is failed, watched, or asked to be
/// watched on the job's source.
pub open spec fn handled(e: WatchEntry, changes: Seq<WatchChange>, job: crate::config::SyncJob) -> bool {
    e.id@ == job.id@ && (e.failed || e.watched is Some || watch_asked(changes, job.id@, job.source@))
}

/// Each of the first `upto` jobs that run on changes (the last with its id) is handled.
pub open spec fn realtime_handled(
    next: Seq<WatchEntry>,
    changes: Seq<WatchChange>,
    jobs: Seq<crate::config::SyncJob>,
    upto: int,
) -> bool {
    forall|t: int|
        0 <= t < upto && is_last_with_id(jobs, t) && jobs[t].watch_mode == crate::config::WatchMode::Realtime
            ==> exists|q: int| 0 <= q < next.len() && #[trigger] handled(next[q], changes, jobs[t])
}

/// Every watch asked for is for a configured job that runs on changes, on its source.
pub open spec fn watches_ok(changes: Seq<WatchChange>, jobs: Seq<crate::config::SyncJob>) -> bool {
    forall|q: int| 0 <= q < changes.len() ==> (#[trigger] changes[q] matches WatchChange::Watch { id, path }
        ==> exists|t: int| 0 <= t < jobs.len() && is_last_with_id(jobs, t) && jobs[t].id@ == id@
            && jobs[t].source@ == path@ && jobs[t].watch_mode == crate::config::WatchMode::Realtime)
}

/// What was handled stays handled as more changes are asked for.
proof fn lemma_handled_grows(
    next: Seq<WatchEntry>,
    before: Seq<WatchChange>,
    after: Seq<WatchChange>,
    jobs: Seq<crate::config::SyncJob>,
    upto: int,
)
    requires
        realtime_handled(next, before, jobs, upto),
        before.len() <= after.len(),
        forall|q: int| 0 <= q < before.len() ==> after[q] == before[q],
    ensures
        realtime_handled(next, after, jobs, upto),
{
    assert forall|t: int|
        0 <= t < upto && is_last_with_id(jobs, t) && jobs[t].watch_mode == crate::config::WatchMode::Realtime
        implies exists|q: int| 0 <= q < next.len() && #[trigger] handled(next[q], after, jobs[t]) by {
        let q = choose|q: int| 0 <= q < next.len() && #[trigger] handled(next[q], before, jobs[t]);
        if !next[q].failed && next[q].watched is None {
            let k = choose|k: int| 0 <= k < before.len() && #[trigger] asks(before[k], jobs[t].id@, jobs[t].source@);
            assert(after[k] == before[k]);
            assert(asks(after[k], jobs[t].id@, jobs[t].source@));
        }
        assert(handled(next[q], after, jobs[t]));
    }
}

/// A reset of the book's entry for a job whose entry no longer fits is justified.
proof fn lemma_reset_of_changed(book: WatchBook, jobs: Seq<crate::config::SyncJob>, i: int, c: WatchChange)
    requires
        0 <= i < jobs.len(),
        is_last_with_id(jobs, i),
        book.entry(jobs[i].id@) matches Some(o) && changed(o, jobs[i]) && resets(c, o),
    ensures
        reset_justified(c, book.entries@, jobs),
{
    let ids = entry_ids(book.entries@);
    let w = ids.index_of(jobs[i].id@);
    assert(ids.contains(jobs[i].id@));
    assert(0 <= w < ids.len() && ids[w] == jobs[i].id@);
    assert(book.entries@[w].id@ == ids[w]);
    assert(resets(c, book.entries@[w]));
}

/// An entry's making stays shown when more changes follow.
proof fn lemma_made_grows(
    next: Seq<WatchEntry>,
    book: WatchBook,
    before: Seq<WatchChange>,
    after: Seq<WatchChange>,
    jobs: Seq<crate::config::SyncJob>,
    upto: int,
)
    requires
        all_made(next, book, before, jobs, upto),
        before.len() <= after.len(),
        forall|q: int| 0 <= q < before.len() ==> after[q] == before[q],
    ensures
        all_made(next, book, after, jobs, upto),
{
    assert forall|t: int| 0 <= t < upto && is_last_with_id(jobs, t) implies exists|q: int| 0 <= q < next.len() && next[q].id@
        == jobs[t].id@ && #[trigger] made(next[q], book.entry(jobs[t].id@), jobs[t], after) by {
        let q = choose|q: int| 0 <= q < next.len() && next[q].id@ == jobs[t].id@ && #[trigger] made(
            next[q],
            book.entry(jobs[t].id@),
            jobs[t],
            before,
        );
        match book.entry(jobs[t].id@) {
            Some(o) => if changed(o, jobs[t]) {
                let k = choose|k: int| 0 <= k < before.len() && resets(#[trigger] before[k], o);
                assert(after[k] == before[k]);
                assert(resets(after[k], o));
            },
            None => {},
        }
        assert(made(next[q], book.entry(jobs[t].id@), jobs[t], after));
    }
}

proof fn lemma_skip(next: Seq<WatchEntry>, jobs: Seq<crate::config::SyncJob>, i: int)
    requires
        0 <= i < jobs.len(),
        from_jobs(next, jobs, i),
        covered(next, jobs, i),
        !is_last_with_id(jobs, i),
    ensures
        from_jobs(next, jobs, i + 1),
        covered(next, jobs, i + 1),
{
    assert forall|q: int| 0 <= q < next.len() implies belongs(#[trigger] next[q].id@, jobs, i + 1) by {
        assert(belongs(next[q].id@, jobs, i));
        let t = choose|t: int| 0 <= t < i && is_last_with_id(jobs, t) && jobs[t].id@ == next[q].id@;
    }
}

proof fn lemma_extend(next: Seq<WatchEntry>, jobs: Seq<crate::config::SyncJob>, i: int, e: WatchEntry)
    requires
        0 <= i < jobs.len(),
        from_jobs(next, jobs, i),
        covered(next, jobs, i),
        entry_ids(next).no_duplicates(),
        is_last_with_id(jobs, i),
        entry_fits(e, jobs[i]),
    ensures
        from_jobs(next.push(e), jobs, i + 1),
        covered(next.push(e), jobs, i + 1),
        entry_ids(next.push(e)).no_duplicates(),
{
    let n = next.push(e);
    assert(entry_ids(n) =~= entry_ids(next).push(e.id@));
    assert forall|a: int, b: int| 0 <= a < n.len() && 0 <= b < n.len() && a != b implies entry_ids(n)[a] != entry_ids(n)[b] by {
        if a < next.len() && b < next.len() {
            assert(entry_ids(next)[a] != entry_ids(next)[b]);
        } else {
            let q = if a < next.len() { a } else { b };
            if q < next.len() {
                assert(belongs(next[q].id@, jobs, i));
                let t = choose|t: int| 0 <= t < i && is_last_with_id(jobs, t) && jobs[t].id@ == next[q].id@;
                assert(jobs[t].id@ != jobs[i].id@);
            }
        }
    }
    assert forall|q: int| 0 <= q < n.len() implies belongs(#[trigger] n[q].id@, jobs, i + 1) by {
        if q < next.len() {
            assert(n[q] == next[q]);
            assert(belongs(next[q].id@, jobs, i));
            let t = choose|t: int| 0 <= t < i && is_last_with_id(jobs, t) && jobs[t].id@ == next[q].id@;
        } else {
            assert(n[q].id@ == jobs[i].id@);
        }
    }
    assert forall|t: int| 0 <= t < i + 1 && is_last_with_id(jobs, t) implies exists|q: int| 0 <= q < n.len() && #[trigger] entry_fits(n[q], jobs[t]) by {
        if t < i {
            let q = choose|q: int| 0 <= q < next.len() && #[trigger] entry_fits(next[q], jobs[t]);
            assert(n[q] == next[q]);
        } else {
            assert(entry_fits(n[next.len() as int], jobs[t]));
        }
    }
}

proof fn lemma_push_change(changes: Seq<WatchChange>, jobs: Seq<crate::config::SyncJob>, c: WatchChange, i: int)
    requires
        watches_ok(changes, jobs),
        0 <= i < jobs.len(),
        c matches WatchChange::Watch { id, path } ==> is_last_with_id(jobs, i) && jobs[i].id@ == id@
            && jobs[i].source@ == path@ && jobs[i].watch_mode == crate::config::WatchMode::Realtime,
    ensures
        watches_ok(changes.push(c), jobs),
{
    let n = changes.push(c);
    assert forall|q: int| 0 <= q < n.len() implies (#[trigger] n[q] matches WatchChange::Watch { id, path }
        ==> exists|t: int| 0 <= t < jobs.len() && is_last_with_id(jobs, t) && jobs[t].id@ == id@
            && jobs[t].source@ == path@ && jobs[t].watch_mode == crate::config::WatchMode::Realtime) by {
        if q < changes.len() {
            assert(n[q] == changes[q]);
        }
    }
}

impl WatchBook {
    /// The entry the book keeps for `job` after a reconcile: the kept one, reset
    /// (and a reset asked for) when the job's mode or folder changed, or a new one.
    fn entry_for(&self, job: &crate::config::SyncJob, changes: &mut Vec<WatchChange>) -> (e: WatchEntry)
        requires
            self.wf(),
        ensures
            entry_fits(e, *job),
            made(e, self.entry(job.id@), *job, final(changes)@),
            final(changes)@.len() >= old(changes)@.len(),
            forall|q: int| 0 <= q < old(changes)@.len() ==> final(changes)@[q] == old(changes)@[q],
            forall|q: int| old(changes)@.len() <= q < final(changes)@.len() ==> (#[trigger] final(changes)@[q]) is Reset,
            forall|q: int| old(changes)@.len() <= q < final(changes)@.len() ==> (self.entry(job.id@) matches Some(o)
                && changed(o, *job) && resets(#[trigger] final(changes)@[q], o)),
    {
        let id = chars_of(job.id.as_str());
        let mode = job.watch_mode;
        match self.find(&id) {
            Some(k) => {
                let old_entry = &self.entries[k];
                proof {
                    let ids = entry_ids(self.entries@);
                    assert(ids[k as int] == job.id@);
                    assert(ids.contains(job.id@));
                }
                assert(self.entry(job.id@) == Some(*old_entry));
                let path_changed = match &old_entry.watched {
                    Some(p) => !chars_equal(chars_of(p.as_str()).as_slice(), chars_of(job.source.as_str()).as_slice()),
                    None => false,
                };
                if old_entry.mode != mode || path_changed {
                    let ghost before = changes@;
                    changes.push(WatchChange::Reset { id: copy_string(&job.id), unwatch: old_entry.watched.is_some() });
                    assert(resets(changes@[before.len() as int], *old_entry));
                    WatchEntry { id: copy_string(&job.id), mode, watched: None, failed: false }
                } else {
                    let watched = copy_opt_string(&old_entry.watched);
                    WatchEntry { id: copy_string(&job.id), mode, watched, failed: old_entry.failed }
                }
            },
            None => WatchEntry { id: copy_string(&job.id), mode, watched: None, failed: false },
        }
    }

    /// Brings the book in line with the configured jobs: forgets removed jobs,
    /// resets a job whose mode or folder changed, and asks for a watcher for each
    /// job that runs on changes and has none and has not failed.
    pub fn reconcile(&mut self, jobs: &Vec<crate::config::SyncJob>) -> (changes: Vec<WatchChange>)
        requires
            old(self).wf(),
        ensures
            final(self).wf(),
            forall|k: int| 0 <= k < final(self).entries@.len() ==> has_job(jobs@, #[trigger] final(self).entries@[k].id@),
            forall|i: int| 0 <= i < jobs@.len() && is_last_with_id(jobs@, i) ==> (final(self).entry(jobs@[i].id@) matches Some(e)
                && e.mode == jobs@[i].watch_mode
                && (e.watched matches Some(p) ==> p@ == jobs@[i].source@)),
            forall|k: int| 0 <= k < changes@.len() ==> (#[trigger] changes@[k] matches WatchChange::Watch { id, path }
                ==> exists|i: int| 0 <= i < jobs@.len() && is_last_with_id(jobs@, i) && jobs@[i].id@ == id@
                    && jobs@[i].source@ == path@ && jobs@[i].watch_mode == crate::config::WatchMode::Realtime),
            // Every job that runs on changes is watched, has failed, or is asked to be watched.
            forall|i: int| 0 <= i < jobs@.len() && is_last_with_id(jobs@, i) && jobs@[i].watch_mode
                == crate::config::WatchMode::Realtime ==> (final(self).entry(jobs@[i].id@) matches Some(e) && (e.failed
                || e.watched is Some || watch_asked(changes@, jobs@[i].id@, jobs@[i].source@))),
            // Every job that is gone is forgotten, its watcher stopped.
            gone_reset(old(self).entries@, old(self).entries@.len() as int, jobs@, changes@),
            // A job's entry is kept while it fits the job, and forgotten and made
            // afresh when the job's mode or folder changed.
            forall|i: int| 0 <= i < jobs@.len() && is_last_with_id(jobs@, i) ==> (final(self).entry(jobs@[i].id@) matches Some(e)
                && made(e, old(self).entry(jobs@[i].id@), jobs@[i], changes@)),
            // Only an entry whose job is gone or changed is reset.
            forall|k: int| 0 <= k < changes@.len() ==> reset_justified(#[trigger] changes@[k], old(self).entries@, jobs@),
            // A watch is asked only for a job whose entry neither watches nor has failed.
            forall|k: int| 0 <= k < changes@.len() ==> (#[trigger] changes@[k] matches WatchChange::Watch { id, .. }
                ==> (final(self).entry(id@) matches Some(e) && e.watched is None && !e.failed)),
    {
        let mut changes: Vec<WatchChange> = Vec::new();
        // Jobs that are gone.
        let mut k: usize = 0;
        while k < self.entries.len()
            invariant
                k <= self.entries@.len(),
                self.entries == old(self).entries,
                forall|q: int| 0 <= q < changes@.len() ==> (#[trigger] changes@[q]) is Reset,
                forall|q: int| 0 <= q < changes@.len() ==> reset_justified(#[trigger] changes@[q], self.entries@, jobs@),
                gone_reset(self.entries@, k as int, jobs@, changes@),
            decreases self.entries@.len() - k,
        {
            let id = chars_of(self.entries[k].id.as_str());
            let ghost before = changes@;
            if !job_index_with_id(jobs, &id) {
                changes.push(WatchChange::Reset {
                    id: copy_string(&self.entries[k].id),
                    unwatch: self.entries[k].watched.is_some(),
                });
                assert(resets(changes@[before.len() as int], self.entries@[k as int]));
            }
            proof {
                assert forall|q: int| 0 <= q < changes@.len() implies reset_justified(#[trigger] changes@[q], self.entries@, jobs@) by {
                    if q < before.len() {
                        assert(changes@[q] == before[q]);
                        assert(reset_justified(before[q], self.entries@, jobs@));
                    } else {
                        assert(resets(changes@[q], self.entries@[k as int]));
                        assert(!has_job(jobs@, self.entries@[k as int].id@));
                    }
                }
            }
            proof {
                assert forall|q: int| 0 <= q < k + 1 && !has_job(jobs@, #[trigger] self.entries@[q].id@) implies exists|t: int|
                    0 <= t < changes@.len() && resets(#[trigger] changes@[t], self.entries@[q]) by {
                    if q < k {
                        let t = choose|t: int| 0 <= t < before.len() && resets(#[trigger] before[t], self.entries@[q]);
                        assert(changes@[t] == before[t]);
                    } else {
                        assert(resets(changes@[before.len() as int], self.entries@[k as int]));
                    }
                }
            }
            k = k + 1;
        }
        let ghost first = changes@;
        let mut next: Vec<WatchEntry> = Vec::new();
        proof {
            assert forall|q: int| 0 <= q < changes@.len() implies (#[trigger] changes@[q] matches WatchChange::Watch { id, path }
                ==> exists|t: int| 0 <= t < jobs@.len() && is_last_with_id(jobs@, t) && jobs@[t].id@ == id@
                    && jobs@[t].source@ == path@ && jobs@[t].watch_mode == crate::config::WatchMode::Realtime) by {
                assert(changes@[q] is Reset);
            }
            assert(entry_ids(next@) =~= Seq::<Seq<char>>::empty());
        }
        let mut i: usize = 0;
        while i < jobs.len()
            invariant
                i <= jobs@.len(),
                old(self).wf(),
                self.entries == old(self).entries,
                entry_ids(next@).no_duplicates(),
                from_jobs(next@, jobs@, i as int),
                covered(next@, jobs@, i as int),
                watches_ok(changes@, jobs@),
                realtime_handled(next@, changes@, jobs@, i as int),
                gone_reset(old(self).entries@, old(self).entries@.len() as int, jobs@, first),
                first.len() <= changes@.len(),
                forall|q: int| 0 <= q < first.len() ==> changes@[q] == first[q],
                all_made(next@, *old(self), changes@, jobs@, i as int),
                forall|q: int| 0 <= q < changes@.len() ==> reset_justified(#[trigger] changes@[q], old(self).entries@, jobs@),
                forall|q: int| 0 <= q < changes@.len() ==> watch_wanted(#[trigger] changes@[q], next@),
            decreases jobs@.len() - i,
        {
            let ghost next0 = next@;
            let ghost changes0 = changes@;
            if !later_has_id(jobs, i) {
                let mode = jobs[i].watch_mode;
                let entry = self.entry_for(&jobs[i], &mut changes);
                let ghost changes1 = changes@;
                if mode == crate::config::WatchMode::Realtime && entry.watched.is_none() && !entry.failed {
                    let c = WatchChange::Watch { id: copy_string(&jobs[i].id), path: copy_string(&jobs[i].source) };
                    proof {
                        lemma_push_change(changes@, jobs@, c, i as int);
                    }
                    changes.push(c);
                    proof {
                        assert(asks(changes@[changes@.len() - 1], jobs@[i as int].id@, jobs@[i as int].source@));
                    }
                }
                proof {
                    lemma_extend(next@, jobs@, i as int, entry);
                    lemma_handled_grows(next0, changes0, changes@, jobs@, i as int);
                    lemma_made_grows(next0, *old(self), changes0, changes@, jobs@, i as int);
                    if !made(entry, old(self).entry(jobs@[i as int].id@), jobs@[i as int], changes@) {
                        match old(self).entry(jobs@[i as int].id@) {
                            Some(o) => if changed(o, jobs@[i as int]) {
                                let k = choose|k: int| 0 <= k < changes1.len() && resets(#[trigger] changes1[k], o);
                                assert(changes@[k] == changes1[k]);
                                assert(resets(changes@[k], o));
                            },
                            None => {},
                        }
                    }
                }
                next.push(entry);
                proof {
                    assert forall|q: int| 0 <= q < changes@.len() implies reset_justified(#[trigger] changes@[q], old(self).entries@, jobs@) by {
                        if q < changes0.len() {
                            assert(changes@[q] == changes0[q]);
                            assert(reset_justified(changes0[q], old(self).entries@, jobs@));
                        } else if q < changes1.len() {
                            assert(changes@[q] == changes1[q]);
                            lemma_reset_of_changed(*old(self), jobs@, i as int, changes1[q]);
                        }
                    }
                    assert forall|q: int| 0 <= q < changes@.len() implies watch_wanted(#[trigger] changes@[q], next@) by {
                        if q < changes0.len() {
                            assert(changes@[q] == changes0[q]);
                            assert(watch_wanted(changes0[q], next0));
                            if changes0[q] is Watch {
                                let w = choose|w: int| 0 <= w < next0.len() && #[trigger] next0[w].id@ == changes0[q]->Watch_id@
                                    && next0[w].watched is None && !next0[w].failed;
                                assert(next@[w] == next0[w]);
                            }
                        } else if q < changes1.len() {
                            assert(changes@[q] == changes1[q]);
                        } else {
                            assert(next@[next0.len() as int] == entry);
                        }
                    }
                }
                proof {
                    assert forall|t: int| 0 <= t < i + 1 && is_last_with_id(jobs@, t) implies exists|q: int| 0 <= q < next@.len()
                        && next@[q].id@ == jobs@[t].id@ && #[trigger] made(next@[q], old(self).entry(jobs@[t].id@), jobs@[t], changes@) by {
                        if t < i {
                            let q = choose|q: int| 0 <= q < next0.len() && next0[q].id@ == jobs@[t].id@ && #[trigger] made(
                                next0[q],
                                old(self).entry(jobs@[t].id@),
                                jobs@[t],
                                changes@,
                            );
                            assert(next@[q] == next0[q]);
                        } else {
                            let q = next0.len() as int;
                            assert(next@[q] == entry);
                        }
                    }
                }
                proof {
                    assert forall|t: int|
                        0 <= t < i + 1 && is_last_with_id(jobs@, t) && jobs@[t].watch_mode == crate::config::WatchMode::Realtime
                        implies exists|q: int| 0 <= q < next@.len() && #[trigger] handled(next@[q], changes@, jobs@[t]) by {
                        if t < i {
                            let q = choose|q: int| 0 <= q < next0.len() && #[trigger] handled(next0[q], changes@, jobs@[t]);
                            assert(next@[q] == next0[q]);
                        } else {
                            let q = next0.len() as int;
                            assert(next@[q] == entry);
                            if !entry.failed && entry.watched is None {
                                assert(watch_asked(changes@, jobs@[i as int].id@, jobs@[i as int].source@));
                            }
                            assert(handled(next@[q], changes@, jobs@[t]));
                        }
                    }
                }
            } else {
                proof {
                    lemma_skip(next@, jobs@, i as int);
                }
            }
            i = i + 1;
        }
        self.entries = next;
        proof {
            assert forall|k: int| 0 <= k < changes@.len() implies (#[trigger] changes@[k] matches WatchChange::Watch { id, .. }
                ==> (self.entry(id@) matches Some(e) && e.watched is None && !e.failed)) by {
                if changes@[k] is Watch {
                    assert(watch_wanted(changes@[k], self.entries@));
                    let id = changes@[k]->Watch_id@;
                    let q = choose|q: int| 0 <= q < self.entries@.len() && #[trigger] self.entries@[q].id@ == id
                        && self.entries@[q].watched is None && !self.entries@[q].failed;
                    let ids = entry_ids(self.entries@);
                    assert(ids[q] == id);
                    assert(ids.contains(id));
                    let w = ids.index_of(id);
                    assert(0 <= w < ids.len() && ids[w] == id);
                    if w != q {
                        assert(ids[w] != ids[q]);
                    }
                }
            }
            let es = old(self).entries@;
            assert forall|q: int| 0 <= q < es.len() && !has_job(jobs@, #[trigger] es[q].id@) implies exists|t: int|
                0 <= t < changes@.len() && resets(#[trigger] changes@[t], es[q]) by {
                let t = choose|t: int| 0 <= t < first.len() && resets(#[trigger] first[t], es[q]);
                assert(changes@[t] == first[t]);
            }
            assert forall|k: int| 0 <= k < self.entries@.len() implies has_job(jobs@, #[trigger] self.entries@[k].id@) by {
                assert(belongs(self.entries@[k].id@, jobs@, jobs@.len() as int));
                let t = choose|t: int| 0 <= t < jobs@.len() && is_last_with_id(jobs@, t) && jobs@[t].id@ == self.entries@[k].id@;
            }
            assert forall|t: int| 0 <= t < jobs@.len() && is_last_with_id(jobs@, t) && jobs@[t].watch_mode
                == crate::config::WatchMode::Realtime implies (self.entry(jobs@[t].id@) matches Some(e) && (e.failed
                || e.watched is Some || watch_asked(changes@, jobs@[t].id@, jobs@[t].source@))) by {
                let q = choose|q: int| 0 <= q < self.entries@.len() && #[trigger] handled(self.entries@[q], changes@, jobs@[t]);
                let ids = entry_ids(self.entries@);
                assert(ids[q] == jobs@[t].id@);
                assert(ids.contains(jobs@[t].id@));
                let w = ids.index_of(jobs@[t].id@);
                assert(0 <= w < ids.len() && ids[w] == jobs@[t].id@);
                if w != q {
                    assert(ids[w] != ids[q]);
                }
            }
            assert forall|t: int| 0 <= t < jobs@.len() && is_last_with_id(jobs@, t) implies (self.entry(jobs@[t].id@) matches Some(e)
                && made(e, old(self).entry(jobs@[t].id@), jobs@[t], changes@)) by {
                let q = choose|q: int| 0 <= q < self.entries@.len() && self.entries@[q].id@ == jobs@[t].id@ && #[trigger] made(
                    self.entries@[q],
                    old(self).entry(jobs@[t].id@),
                    jobs@[t],
                    changes@,
                );
                let ids = entry_ids(self.entries@);
                assert(ids[q] == jobs@[t].id@);
                assert(ids.contains(jobs@[t].id@));
                let w = ids.index_of(jobs@[t].id@);
                assert(0 <= w < ids.len() && ids[w] == jobs@[t].id@);
                if w != q {
                    assert(ids[w] != ids[q]);
                }
            }
            assert forall|t: int| 0 <= t < jobs@.len() && is_last_with_id(jobs@, t) implies (self.entry(jobs@[t].id@) matches Some(e)
                && e.mode == jobs@[t].watch_mode && (e.watched matches Some(p) ==> p@ == jobs@[t].source@)) by {
                let q = choose|q: int| 0 <= q < self.entries@.len() && #[trigger] entry_fits(self.entries@[q], jobs@[t]);
                let ids = entry_ids(self.entries@);
                assert(ids[q] == jobs@[t].id@);
                assert(ids.contains(jobs@[t].id@));
                let w = ids.index_of(jobs@[t].id@);
                assert(0 <= w < ids.len() && ids[w] == jobs@[t].id@);
                if w != q {
                    assert(ids[w] != ids[q]);
                }
            }
        }
        changes
    }
}

} // verus!
