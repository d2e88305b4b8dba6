//! The state the program starts from, taken from the settings file when there is
//! one: targets (the default one when none are configured), the scan interval,
//! the jobs with their ids, the interval presets, where stopped runs resume, and
//! the silenced copy-issue keys.

use vstd::prelude::*;
use crate::config::{
    default_interval_presets, is_normalized_from, job_id_text, normalize_interval_presets, positive_values,
    JobIdGenerator, SyncJob,
};
use crate::guest_copy::{key_texts, strictly_sorted, toggle_issue_silence};
use crate::state::{any_target_running, target_running, AppState, TargetApp};
use crate::text::{chars_of, owned, string_from, trim, trim_chars};

verus! {

/// What the settings file holds of the state the program starts from.
pub struct StoredSettings {
    pub service_enabled: bool,
    pub targets: Vec<TargetApp>,
    pub scan_interval_secs: u32,
    pub sync_enabled: bool,
    pub sync_jobs: Vec<SyncJob>,
    pub interval_presets: Vec<u32>,
    pub suppressed_issue_keys: Vec<String>,
}

/// The state the program starts from.
pub struct StartupState {
    pub app_state: AppState,
    pub scan_interval_secs: u32,
    pub sync_enabled: bool,
    pub jobs: Vec<SyncJob>,
    /// The job the editor shows: the first one, when there is one.
    pub selected_job: Option<usize>,
    pub interval_presets: Vec<u32>,
    /// (job id, resume point) of each job that stopped part way.
    pub cursors: Vec<(String, String)>,
    /// Silenced copy-issue keys, sorted, each once.
    pub suppressed_issue_keys: Vec<String>,
}

/// The (job id, resume point) of each job that has a resume point, in job order.
pub open spec fn cursor_pairs(jobs: Seq<SyncJob>) -> Seq<(Seq<char>, Seq<char>)>
    decreases jobs.len(),
{
    if jobs.len() == 0 {
        Seq::empty()
    } else {
        let rest = cursor_pairs(jobs.drop_last());
        match jobs.last().resume_cursor {
            Some(c) => rest.push((jobs.last().id@, c@)),
            None => rest,
        }
    }
}

/// The keys of `keys` that are not blank.
pub open spec fn nonblank_keys(keys: Seq<Seq<char>>) -> Set<Seq<char>> {
    Set::new(|k: Seq<char>| keys.contains(k) && trim(k).len() > 0)
}

/// The job at `i` of the stored list, given the fresh id `job_id_text(now, seq + i)`
/// when it had none.
pub open spec fn loaded_job(stored: SyncJob, loaded: SyncJob, now: nat, seq: nat) -> bool {
    &&& loaded == (SyncJob { id: loaded.id, ..stored })
    &&& loaded.id@ == (if stored.id@.len() == 0 {
        job_id_text(now, seq)
    } else {
        stored.id@
    })
}

fn cursors_of(jobs: &Vec<SyncJob>) -> (r: Vec<(String, String)>)
    ensures
        r@.map_values(|p: (String, String)| (p.0@, p.1@)) == cursor_pairs(jobs@),
{
    let mut r: Vec<(String, String)> = Vec::new();
    let mut i: usize = 0;
    while i < jobs.len()
        invariant
            i <= jobs@.len(),
            r@.map_values(|p: (String, String)| (p.0@, p.1@)) == cursor_pairs(jobs@.subrange(0, i as int)),
        decreases jobs@.len() - i,
    {
        let ghost before = r@;
        proof {
            let next = jobs@.subrange(0, i + 1);
            assert(next.drop_last() =~= jobs@.subrange(0, i as int));
            assert(next.last() == jobs@[i as int]);
        }
        match &jobs[i].resume_cursor {
            Some(c) => {
                let id = string_from(chars_of(jobs[i].id.as_str()).as_slice());
                let point = string_from(chars_of(c.as_str()).as_slice());
                r.push((id, point));
                assert(r@.map_values(|p: (String, String)| (p.0@, p.1@)) =~= before.map_values(
                    |p: (String, String)| (p.0@, p.1@),
                ).push((jobs@[i as int].id@, c@)));
            },
            None => {},
        }
        i = i + 1;
    }
    assert(jobs@.subrange(0, jobs@.len() as int) =~= jobs@);
    r
}

fn silenced_keys(stored: &Vec<String>) -> (r: Vec<String>)
    ensures
        strictly_sorted(key_texts(r@)),
        key_texts(r@).to_set() == nonblank_keys(key_texts(stored@)),
{
    let ghost sv = key_texts(stored@);
    let mut r: Vec<String> = Vec::new();
    let mut i: usize = 0;
    assert(key_texts(r@).to_set() =~= Set::<Seq<char>>::empty());
    while i < stored.len()
        invariant
            i <= stored@.len(),
            sv == key_texts(stored@),
            strictly_sorted(key_texts(r@)),
            key_texts(r@).to_set() == nonblank_keys(sv.subrange(0, i as int)),
        decreases stored@.len() - i,
    {
        let key = stored[i].as_str();
        let ghost before = key_texts(r@).to_set();
        let t = trim_chars(chars_of(key).as_slice());
        if t.len() > 0 {
            let mut present = false;
            let mut j: usize = 0;
            while j < r.len()
                invariant
                    j <= r@.len(),
                    present == (exists|q: int| 0 <= q < j && key_texts(r@)[q] == key@),
                decreases r@.len() - j,
            {
                if crate::text::chars_equal(chars_of(r[j].as_str()).as_slice(), chars_of(key).as_slice()) {
                    assert(key_texts(r@)[j as int] == key@);
                    present = true;
                }
                j = j + 1;
            }
            if !present {
                let _ = toggle_issue_silence(&mut r, key);
            } else {
                proof {
                    let q = choose|q: int| 0 <= q < r@.len() && key_texts(r@)[q] == key@;
                    assert(key_texts(r@).to_set().contains(key@));
                    assert(before.insert(key@) =~= before);
                }
            }
        }
        proof {
            let next = sv.subrange(0, i + 1);
            assert(next =~= sv.subrange(0, i as int).push(sv[i as int]));
            assert(sv[i as int] == key@);
            let prev = sv.subrange(0, i as int);
            assert forall|k: Seq<char>| next.contains(k) <==> (prev.contains(k) || k == key@) by {
                if next.contains(k) {
                    let w = choose|w: int| 0 <= w < next.len() && next[w] == k;
                    if w < i {
                        assert(prev[w] == k);
                    }
                }
                if prev.contains(k) {
                    let w = choose|w: int| 0 <= w < prev.len() && prev[w] == k;
                    assert(next[w] == k);
                }
                if k == key@ {
                    assert(next[i as int] == k);
                }
            }
            if t@.len() > 0 {
                assert(nonblank_keys(next) =~= nonblank_keys(prev).insert(key@));
            } else {
                assert(nonblank_keys(next) =~= nonblank_keys(prev));
            }
        }
        i = i + 1;
    }
    assert(sv.subrange(0, sv.len() as int) =~= sv);
    r
}

/// The state the program starts from: the defaults when no settings were read,
/// else the stored state with the default target when none is configured, a scan
/// interval of at least a second, each job given an id when it has none, the
/// presets normalized (the defaults when none is left), the resume points taken
/// from the jobs and the silenced keys that are not blank. A target counts as
/// running when it is enabled and among `running_processes` (the names of the
/// processes that have windows, as the platform lists them).
pub fn startup_state(
    stored: Option<StoredSettings>,
    ids: &mut JobIdGenerator,
    now_secs: u64,
    running_processes: &Vec<String>,
) -> (r: StartupState)
    requires
        match stored {
            Some(s) => old(ids).next_seq + s.sync_jobs@.len() <= u64::MAX,
            None => true,
        },
    ensures
        ({
            match stored {
                None => {
                    &&& r.app_state.is_active
                    &&& r.app_state.targets@.len() == 1
                    &&& r.app_state.targets@[0].process_name@ == "KakaoTalk.exe"@
                    &&& r.app_state.targets@[0].enabled
                    &&& r.app_state.log_entries@.len() == 1
                    &&& r.scan_interval_secs == 10
                    &&& r.sync_enabled
                    &&& r.jobs@.len() == 0
                    &&& r.interval_presets@ == seq![10u32, 30u32, 60u32]
                    &&& r.suppressed_issue_keys@.len() == 0
                    &&& final(ids).next_seq == old(ids).next_seq
                },
                Some(s) => {
                    &&& r.app_state.is_active == s.service_enabled
                    &&& s.targets@.len() > 0 ==> r.app_state.targets@ == s.targets@
                    &&& s.targets@.len() == 0 ==> r.app_state.targets@.len() == 1
                        && r.app_state.targets@[0].process_name@ == "KakaoTalk.exe"@
                        && r.app_state.targets@[0].enabled
                    &&& r.app_state.log_entries@.len() == 2
                    &&& r.app_state.log_entries@[1].message@ == "설정 파일을 불러왔습니다."@
                    &&& r.scan_interval_secs == (if s.scan_interval_secs == 0 { 1 } else { s.scan_interval_secs })
                    &&& r.sync_enabled == s.sync_enabled
                    &&& r.jobs@.len() == s.sync_jobs@.len()
                    &&& forall|i: int| 0 <= i < s.sync_jobs@.len() ==> loaded_job(
                        s.sync_jobs@[i],
                        #[trigger] r.jobs@[i],
                        now_secs as nat,
                        (old(ids).next_seq + i) as nat,
                    )
                    &&& final(ids).next_seq == old(ids).next_seq + s.sync_jobs@.len()
                    &&& positive_values(s.interval_presets@) == Set::<u32>::empty() ==> r.interval_presets@ == seq![10u32, 30u32, 60u32]
                    &&& positive_values(s.interval_presets@) != Set::<u32>::empty() ==> is_normalized_from(
                        r.interval_presets@,
                        s.interval_presets@,
                    )
                    &&& strictly_sorted(key_texts(r.suppressed_issue_keys@))
                    &&& key_texts(r.suppressed_issue_keys@).to_set() == nonblank_keys(key_texts(s.suppressed_issue_keys@))
                },
            }
        }),
        r.app_state.is_target_running == target_running(r.app_state.targets@, running_processes@),
        r.app_state.blocked_count == 0,
        r.selected_job == (if r.jobs@.len() == 0 { None } else { Some(0usize) }),
        r.cursors@.map_values(|p: (String, String)| (p.0@, p.1@)) == cursor_pairs(r.jobs@),
{
    let mut app_state = AppState::default();
    match stored {
        None => {
            proof {
                assert(cursor_pairs(Seq::<SyncJob>::empty()) =~= Seq::empty());
            }
            app_state.is_target_running = any_target_running(&app_state.targets, running_processes);
            let cursors: Vec<(String, String)> = Vec::new();
            assert(cursors@.map_values(|p: (String, String)| (p.0@, p.1@)) =~= Seq::empty());
            StartupState {
                app_state,
                scan_interval_secs: 10,
                sync_enabled: true,
                jobs: Vec::new(),
                selected_job: None,
                interval_presets: default_interval_presets(),
                cursors,
                suppressed_issue_keys: Vec::new(),
            }
        },
        Some(s) => {
            app_state.is_active = s.service_enabled;
            if s.targets.len() > 0 {
                app_state.targets = s.targets;
            }
            let scan_interval_secs = if s.scan_interval_secs == 0 {
                1
            } else {
                s.scan_interval_secs
            };
            let seq0 = ids.next_seq;
            let ghost stored_jobs = s.sync_jobs@;
            let mut rest = s.sync_jobs;
            let mut jobs: Vec<SyncJob> = Vec::new();
            while rest.len() > 0
                invariant
                    jobs@.len() + rest@.len() == stored_jobs.len(),
                    rest@ == stored_jobs.subrange(jobs@.len() as int, stored_jobs.len() as int),
                    ids.next_seq == seq0 + jobs@.len(),
                    seq0 + stored_jobs.len() <= u64::MAX,
                    forall|k: int| 0 <= k < jobs@.len() ==> loaded_job(
                        stored_jobs[k],
                        #[trigger] jobs@[k],
                        now_secs as nat,
                        (seq0 + k) as nat,
                    ),
                decreases rest@.len(),
            {
                let ghost n = jobs@.len();
                let mut job = rest.remove(0);
                assert(job == stored_jobs[n as int]);
                let fresh = ids.next_id(now_secs);
                job.ensure_id(fresh);
                jobs.push(job);
                assert(rest@ =~= stored_jobs.subrange(jobs@.len() as int, stored_jobs.len() as int));
            }
            let mut presets = s.interval_presets;
            let ghost stored_presets = presets@;
            normalize_interval_presets(&mut presets);
            if presets.len() == 0 {
                proof {
                    assert(presets@.to_set() =~= Set::<u32>::empty());
                }
                presets = default_interval_presets();
            } else {
                proof {
                    assert(presets@.to_set().contains(presets@[0]));
                    assert(positive_values(stored_presets).contains(presets@[0]));
                }
            }
            app_state.push_log("INFO", owned("설정 파일을 불러왔습니다."));
            app_state.is_target_running = any_target_running(&app_state.targets, running_processes);
            let cursors = cursors_of(&jobs);
            let keys = silenced_keys(&s.suppressed_issue_keys);
            let selected_job = if jobs.len() == 0 {
                None
            } else {
                Some(0)
            };
            StartupState {
                app_state,
                scan_interval_secs,
                sync_enabled: s.sync_enabled,
                jobs,
                selected_job,
                interval_presets: presets,
                cursors,
                suppressed_issue_keys: keys,
            }
        },
    }
}

} // verus!
