//! The traversal of one synchronisation run, as a state machine.
//!
//! The engine decides; the caller does the file-system work. Each call of
//! [`SyncEngine::step`] takes the result of the previous [`SyncAction`] and returns
//! the next one, until [`SyncAction::Finished`]. The rules it applies:
//!
//! - entries of a folder are handled in name order, so that a stopped run can
//!   resume from a recorded path;
//! - the stop request is honoured before each entry; a stopped run deletes nothing;
//! - hidden or system entries are skipped unless the job includes them;
//! - symbolic links and junctions are never copied;
//! - a file is copied when the target is missing, has another size, or is two
//!   seconds or more older than the source;
//! - with mirror deletes, target entries whose names are not in the source folder
//!   are removed after the folder's own entries are handled.

use vstd::prelude::*;
use crate::config::SyncJob;
use crate::sync::outcome::{
    describe_io_error, io_reason, IoErrorInfo, IoErrorKind, SyncFailure, SyncOutcome,
    MAX_FAILURES,
};
use crate::sync::resume::{probe_result, views, ResumeCursor, ResumeProbe};
use crate::text::{
    chars_equal, chars_less, chars_of, owned, push_all, seq_less, string_from, trim, trim_chars,
};

verus! {

/// What the engine reads of a source entry's metadata (links not followed).
#[derive(Clone, Debug)]
pub struct EntryMeta {
    pub is_symlink: bool,
    pub is_dir: bool,
    /// Whether the hidden or system attribute is set, where the platform has such
    /// attributes; `None` elsewhere, where a leading `.` in the name marks hidden.
    pub hidden_attribute: Option<bool>,
    pub len: u64,
    /// Modification time, nanoseconds from the Unix epoch, when it could be read.
    pub modified_nanos: Option<i128>,
}

/// What the engine reads of an existing target file's metadata.
#[derive(Clone, Debug)]
pub struct TargetMeta {
    pub len: u64,
    pub modified_nanos: Option<i128>,
}

/// Progress passed on just before one file is handled.
#[derive(Clone, Debug)]
pub struct SyncProgress {
    /// The file's path relative to the source folder.
    pub current_path: String,
    pub copied: usize,
    pub skipped: usize,
    pub failed: usize,
}

/// The next piece of work for the caller. Paths are component lists relative to
/// the job's source or target folder.
#[derive(Debug)]
pub enum SyncAction {
    /// Report whether the source folder exists and is a folder.
    CheckSource,
    /// Report whether the target folder lies inside the source folder.
    CheckTargetInside,
    /// Create the target folder and its parents.
    CreateTargetRoot,
    /// List the entries of this source folder.
    ListSource { dir: Vec<String> },
    /// Read the metadata of this source entry without following links.
    StatSource { path: Vec<String> },
    /// Create this target folder and its parents.
    CreateTargetDir { path: Vec<String> },
    /// Pass progress on; the file it names is about to be handled.
    Report(SyncProgress),
    /// Read the metadata of this target file.
    StatTarget { path: Vec<String> },
    /// Copy this source file over the target file.
    CopyFile { path: Vec<String> },
    /// List the entries of this target folder.
    ListTarget { dir: Vec<String> },
    /// Remove this target entry, folder or file.
    RemoveTarget { path: Vec<String> },
    /// Nothing to do; step again.
    Proceed,
    /// The run is over; the outcome is final.
    Finished,
}

/// Result of the caller's work on the previous action.
#[derive(Debug)]
pub enum SyncEvent {
    /// First call.
    Start,
    SourceChecked { is_dir: bool },
    InsideChecked { inside: bool },
    /// Result of creating, copying or removing.
    Done(Result<(), IoErrorInfo>),
    /// Entries of a listed folder, each a name or the error met reading it.
    Listed(Result<Vec<Result<String, IoErrorInfo>>, IoErrorInfo>),
    Stat(Result<EntryMeta, IoErrorInfo>),
    TargetStat(Result<TargetMeta, IoErrorInfo>),
    /// Acknowledges `Report` and `Proceed`.
    Acknowledged,
}

/// Where the engine stands.
#[derive(Clone, Copy, Debug, PartialEq, Eq, Structural)]
pub enum Stage {
    Start,
    CheckSource,
    CheckInside,
    CreateRoot,
    Listing,
    Loop,
    Stat,
    CreateDir,
    Report,
    TargetStat,
    Copy,
    MirrorList,
    MirrorLoop,
    Remove,
    Finished,
}

/// A listed source entry: its name, or the error met reading it (empty name).
#[derive(Debug)]
pub struct Listed {
    pub name: Vec<char>,
    pub error: Option<IoErrorInfo>,
}

/// One folder being handled.
#[derive(Debug)]
pub struct Frame {
    pub dir: Vec<Vec<char>>,
    /// Depth at which this folder's entries are compared with the resume point.
    pub depth: usize,
    /// Entries in name order.
    pub entries: Vec<Listed>,
    /// Next entry to handle.
    pub pos: usize,
    /// Names of the entries met so far, skipped ones included.
    pub seen: Vec<Vec<char>>,
    /// Name of the entry being handled.
    pub current: Vec<char>,
    /// Resume depth for the current entry's own entries.
    pub child_depth: usize,
    pub src_len: u64,
    pub src_modified: Option<i128>,
    /// Target names to remove (mirror deletes).
    pub removals: Vec<Vec<char>>,
    /// Next removal.
    pub rpos: usize,
}

/// The engine of one run.
pub struct SyncEngine {
    pub include_hidden: bool,
    pub mirror_deletes: bool,
    /// The platform's path separator.
    pub sep: char,
    pub source_text: Vec<char>,
    pub target_text: Vec<char>,
    /// The target folder as the caller reads it (trimmed).
    pub target_root: Vec<char>,
    pub cursor: ResumeCursor,
    /// Whether the run started from a resume point.
    pub resuming: bool,
    pub frames: Vec<Frame>,
    pub outcome: SyncOutcome,
    pub stage: Stage,
}

// ───────────────────────── specifications ─────────────────────────

/// Reason recorded when the job has no source or no target.
pub open spec fn msg_missing_folder() -> Seq<char> {
    "원본 또는 대상 폴더가 비어 있습니다."@
}

pub open spec fn msg_no_source() -> Seq<char> {
    "원본 폴더가 존재하지 않거나 폴더가 아닙니다."@
}

pub open spec fn msg_target_inside() -> Seq<char> {
    "대상 폴더가 원본 폴더 내부에 있어 동기화할 수 없습니다."@
}

pub open spec fn msg_symlink() -> Seq<char> {
    "심볼릭 링크/정션은 복사 대상에서 제외됩니다."@
}

/// Display text of a path relative to the source folder.
pub open spec fn source_label(comps: Seq<Seq<char>>, sep: char) -> Seq<char> {
    crate::text::join(comps, seq![sep])
}

/// Display text of a target path: the target folder with the components
/// appended, a separator added where the text does not already end with one.
pub open spec fn target_label(base: Seq<char>, comps: Seq<Seq<char>>, sep: char) -> Seq<char>
    decreases comps.len(),
{
    if comps.len() == 0 {
        base
    } else {
        let b = target_label(base, comps.drop_last(), sep);
        if b.len() > 0 && !(b.last() == '/' || b.last() == sep) {
            b + seq![sep] + comps.last()
        } else {
            b + comps.last()
        }
    }
}

/// Whether an entry counts as hidden.
pub open spec fn is_hidden(hidden_attribute: Option<bool>, name: Seq<char>) -> bool {
    match hidden_attribute {
        Some(h) => h,
        None => name.len() > 0 && name[0] == '.',
    }
}

/// The file attribute bit of hidden entries.
pub const FILE_ATTRIBUTE_HIDDEN: u32 = 0x2;
/// The file attribute bit of system entries.
pub const FILE_ATTRIBUTE_SYSTEM: u32 = 0x4;

/// Whether file attributes mark an entry hidden or system (what the source's
/// metadata gives as its hidden attribute where the file system has one).
pub fn hidden_or_system(attributes: u32) -> (r: bool)
    ensures
        r == (attributes & (FILE_ATTRIBUTE_HIDDEN | FILE_ATTRIBUTE_SYSTEM) != 0),
{
    attributes & (FILE_ATTRIBUTE_HIDDEN | FILE_ATTRIBUTE_SYSTEM) != 0
}

/// Nanoseconds of a modification time, the epoch when unknown.
pub open spec fn nanos_or_epoch(t: Option<i128>) -> int {
    match t {
        Some(n) => n as int,
        None => 0,
    }
}

/// A source file must be copied over an existing target when the sizes differ or
/// the source is newer by two seconds or more (the margin absorbs the coarse
/// time stamps of some file systems).
pub open spec fn needs_copy(
    src_len: u64,
    src_modified: Option<i128>,
    dst_len: u64,
    dst_modified: Option<i128>,
) -> bool {
    src_len != dst_len || nanos_or_epoch(src_modified) - nanos_or_epoch(dst_modified)
        >= 2_000_000_000
}

/// A target of the source's size whose time stamp is less than two seconds
/// behind the source's (such as the copy a run made, with the time kept) is up to
/// date and is not copied again.
pub proof fn lemma_matching_target_is_up_to_date(len: u64, src_modified: Option<i128>, dst_modified: Option<i128>)
    requires
        nanos_or_epoch(src_modified) - nanos_or_epoch(dst_modified) < 2_000_000_000,
    ensures
        !needs_copy(len, src_modified, len, dst_modified),
{
}

/// The component views of a path as the caller receives it.
pub open spec fn path_view(p: Seq<String>) -> Seq<Seq<char>> {
    p.map_values(|s: String| s@)
}

/// A folder's bookkeeping: every entry handled so far that was read without error
/// has its name among the names seen.
pub open spec fn frame_ok(f: Frame) -> bool {
    &&& f.pos <= f.entries@.len()
    &&& f.rpos <= f.removals@.len()
    &&& forall|i: int|
        0 <= i < f.pos && (#[trigger] f.entries@[i]).error is None ==> has_name(f.seen@, f.entries@[i].name@)
}

/// Whether `n` is among `names`.
pub open spec fn has_name(names: Seq<Vec<char>>, n: Seq<char>) -> bool {
    exists|j: int| 0 <= j < names.len() && names[j]@ == n
}

/// The names of the entries that were read without error.
pub open spec fn names_listed(entries: Seq<Listed>) -> Set<Seq<char>> {
    Set::new(|n: Seq<char>| exists|i: int| 0 <= i < entries.len() && entries[i].error is None && entries[i].name@ == n)
}

impl SyncEngine {
    /// Traversal stages, where a folder is being handled.
    pub open spec fn in_traversal(&self) -> bool {
        match self.stage {
            Stage::Listing | Stage::Loop | Stage::Stat | Stage::CreateDir | Stage::Report
            | Stage::TargetStat | Stage::Copy | Stage::MirrorList | Stage::MirrorLoop
            | Stage::Remove => true,
            _ => false,
        }
    }

    pub open spec fn top(&self) -> Frame {
        self.frames@.last()
    }

    /// The engine's internal consistency.
    pub open spec fn wf(&self) -> bool {
        &&& self.outcome.failures@.len() <= MAX_FAILURES
        &&& self.in_traversal() ==> self.frames@.len() >= 1
        &&& !self.in_traversal() ==> self.frames@.len() == 0
        &&& forall|k: int| 0 <= k < self.frames@.len() ==> frame_ok(#[trigger] self.frames@[k])
        &&& (self.stage == Stage::MirrorLoop || self.stage == Stage::Remove) ==> {
            &&& self.top().pos == self.top().entries@.len()
            &&& forall|r: int|
                0 <= r < self.top().removals@.len() ==> !names_listed(
                    self.top().entries@,
                ).contains(#[trigger] self.top().removals@[r]@)
        }
        &&& self.stage == Stage::Remove ==> self.top().rpos < self.top().removals@.len()
        &&& (self.stage == Stage::MirrorList || self.stage == Stage::MirrorLoop || self.stage
            == Stage::Remove) ==> self.mirror_deletes && self.top().pos == self.top().entries@.len()
        &&& self.stage != Stage::Finished ==> !self.outcome.cancelled
        &&& self.stage == Stage::Finished ==> self.outcome.resumed == self.resuming
        &&& self.stage != Stage::Finished ==> !self.outcome.resumed
        &&& (self.stage == Stage::Start || self.stage == Stage::CheckSource || self.stage == Stage::CheckInside
            || self.stage == Stage::CreateRoot) ==> !self.resuming
    }

    /// Which event answers the engine's last action.
    pub open spec fn accepts(&self, event: SyncEvent) -> bool {
        match self.stage {
            Stage::Start => event is Start,
            Stage::CheckSource => event is SourceChecked,
            Stage::CheckInside => event is InsideChecked,
            Stage::CreateRoot | Stage::CreateDir | Stage::Copy | Stage::Remove => event is Done,
            Stage::Listing | Stage::MirrorList => event is Listed,
            Stage::Stat => event is Stat,
            Stage::TargetStat => event is TargetStat,
            Stage::Loop | Stage::Report | Stage::MirrorLoop | Stage::Finished => event
                is Acknowledged,
        }
    }
}

// ───────────────────────── helpers ─────────────────────────

pub(crate) fn source_label_of(comps: &Vec<Vec<char>>, sep: char) -> (r: Vec<char>)
    ensures
        r@ == source_label(views(comps@), sep),
{
    let s = vec![sep];
    assert(s@ =~= seq![sep]);
    crate::text::join_chars(comps, s.as_slice())
}

pub(crate) fn target_label_of(base: &Vec<char>, comps: &Vec<Vec<char>>, sep: char) -> (r: Vec<char>)
    ensures
        r@ == target_label(base@, views(comps@), sep),
{
    let mut r: Vec<char> = Vec::new();
    push_all(&mut r, base.as_slice());
    let mut i: usize = 0;
    while i < comps.len()
        invariant
            i <= comps@.len(),
            r@ == target_label(base@, views(comps@).subrange(0, i as int), sep),
        decreases comps@.len() - i,
    {
        let ghost before = r@;
        let needs_sep = r.len() > 0 && !(r[r.len() - 1] == '/' || r[r.len() - 1] == sep);
        if needs_sep {
            r.push(sep);
        }
        push_all(&mut r, comps[i].as_slice());
        proof {
            let now = views(comps@).subrange(0, i + 1);
            assert(now.drop_last() =~= views(comps@).subrange(0, i as int));
            assert(now.last() == comps@[i as int]@);
        }
        i = i + 1;
    }
    assert(views(comps@).subrange(0, comps@.len() as int) =~= views(comps@));
    r
}

pub(crate) fn strings_of(comps: &Vec<Vec<char>>) -> (r: Vec<String>)
    ensures
        path_view(r@) == views(comps@),
{
    let mut r: Vec<String> = Vec::new();
    let mut i: usize = 0;
    while i < comps.len()
        invariant
            i <= comps@.len(),
            r@.len() == i,
            path_view(r@) == views(comps@).subrange(0, i as int),
        decreases comps@.len() - i,
    {
        let ghost before = r@;
        let item = string_from(comps[i].as_slice());
        r.push(item);
        proof {
            assert(r@ == before.push(item));
            assert forall|j: int| 0 <= j < r@.len() implies #[trigger] path_view(r@)[j] == views(
                comps@,
            ).subrange(0, i + 1)[j] by {
                if j < i {
                    assert(r@[j] == before[j]);
                    assert(path_view(before)[j] == views(comps@).subrange(0, i as int)[j]);
                }
            }
        }
        i = i + 1;
        assert(path_view(r@) =~= views(comps@).subrange(0, i as int));
    }
    assert(views(comps@).subrange(0, comps@.len() as int) =~= views(comps@));
    r
}

pub(crate) fn copy_chars(v: &Vec<char>) -> (r: Vec<char>)
    ensures
        r@ == v@,
{
    let mut r: Vec<char> = Vec::new();
    push_all(&mut r, v.as_slice());
    r
}

pub(crate) fn copy_path(v: &Vec<Vec<char>>) -> (r: Vec<Vec<char>>)
    ensures
        views(r@) == views(v@),
{
    let mut r: Vec<Vec<char>> = Vec::new();
    let mut i: usize = 0;
    while i < v.len()
        invariant
            i <= v@.len(),
            r@.len() == i,
            views(r@) == views(v@).subrange(0, i as int),
        decreases v@.len() - i,
    {
        let ghost before = r@;
        let item = copy_chars(&v[i]);
        r.push(item);
        proof {
            assert(r@ == before.push(item));
            assert forall|j: int| 0 <= j < r@.len() implies #[trigger] views(r@)[j] == views(
                v@,
            ).subrange(0, i + 1)[j] by {
                if j < i {
                    assert(r@[j] == before[j]);
                    assert(views(before)[j] == views(v@).subrange(0, i as int)[j]);
                }
            }
        }
        i = i + 1;
        assert(views(r@) =~= views(v@).subrange(0, i as int));
    }
    assert(views(v@).subrange(0, v@.len() as int) =~= views(v@));
    r
}

pub(crate) fn child_path(dir: &Vec<Vec<char>>, name: &Vec<char>) -> (r: Vec<Vec<char>>)
    ensures
        views(r@) == views(dir@).push(name@),
{
    let mut r = copy_path(dir);
    let ghost before = r@;
    r.push(copy_chars(name));
    assert(views(r@) =~= views(before).push(name@));
    r
}

pub(crate) fn contains_name(names: &Vec<Vec<char>>, name: &Vec<char>) -> (r: bool)
    ensures
        r == exists|j: int| 0 <= j < names@.len() && names@[j]@ == name@,
{
    let mut j: usize = 0;
    while j < names.len()
        invariant
            j <= names@.len(),
            forall|t: int| 0 <= t < j ==> names@[t]@ != name@,
        decreases names@.len() - j,
    {
        if chars_equal(names[j].as_slice(), name.as_slice()) {
            return true;
        }
        j = j + 1;
    }
    false
}

/// A listing item read without error and carrying the name `n`.
pub open spec fn is_ok_named(item: Result<String, IoErrorInfo>, n: Seq<char>) -> bool {
    match item {
        Ok(s) => s@ == n,
        Err(_) => false,
    }
}

/// Entries sorted by name; entries read with an error sort as the empty name.
pub open spec fn sorted_by_name(s: Seq<Listed>) -> bool {
    forall|i: int, j: int| 0 <= i < j < s.len() ==> !seq_less(#[trigger] s[j].name@, #[trigger] s[i].name@)
}

fn insert_by_name(out: &mut Vec<Listed>, x: Listed)
    requires
        sorted_by_name(old(out)@),
    ensures
        sorted_by_name(final(out)@),
        final(out)@.len() == old(out)@.len() + 1,
        final(out)@.to_multiset() == old(out)@.to_multiset().insert(x),
{
    let ghost before = out@;
    let mut p: usize = 0;
    while p < out.len() && !chars_less(x.name.as_slice(), out[p].name.as_slice())
        invariant
            p <= out@.len(),
            out@ == before,
            forall|t: int| 0 <= t < p ==> !seq_less(x.name@, #[trigger] out@[t].name@),
        decreases out@.len() - p,
    {
        p = p + 1;
    }
    let ghost xv = x;
    out.insert(p, x);
    proof {
        assert forall|a: int, b: int| 0 <= a < b < out@.len() implies !seq_less(
            #[trigger] out@[b].name@,
            #[trigger] out@[a].name@,
        ) by {
            crate::text::lemma_seq_less_total(out@[a].name@, out@[b].name@);
            if b < p {
                assert(out@[a] == before[a]);
                assert(out@[b] == before[b]);
            } else if b == p {
                assert(out@[a] == before[a]);
            } else if a < p {
                assert(out@[a] == before[a]);
                assert(out@[b] == before[b - 1]);
                assert(!seq_less(before[b - 1].name@, before[a].name@));
            } else if a == p {
                assert(out@[b] == before[b - 1]);
                assert(seq_less(xv.name@, before[p as int].name@));
                if b - 1 > p {
                    assert(!seq_less(before[b - 1].name@, before[p as int].name@));
                    crate::text::lemma_seq_less_total(before[b - 1].name@, before[p as int].name@);
                    if seq_less(before[b - 1].name@, xv.name@) {
                        crate::text::lemma_seq_less_transitive(
                            before[b - 1].name@,
                            xv.name@,
                            before[p as int].name@,
                        );
                    }
                } else {
                    crate::text::lemma_seq_less_total(before[p as int].name@, xv.name@);
                }
            } else {
                assert(out@[a] == before[a - 1]);
                assert(out@[b] == before[b - 1]);
            }
        }
        assert(out@.remove(p as int) =~= before);
        out@.to_multiset_ensures();
        assert(out@.to_multiset().remove(xv) == before.to_multiset());
        assert(out@.contains(xv)) by {
            assert(out@[p as int] == xv);
        }
        assert(out@.to_multiset().count(xv) > 0);
        assert(out@.to_multiset() =~= before.to_multiset().insert(xv));
    }
}

/// The names in a listing that were read without error.
pub open spec fn listing_names(items: Seq<Result<String, IoErrorInfo>>) -> Set<Seq<char>> {
    Set::new(|n: Seq<char>| exists|k: int| 0 <= k < items.len() && is_ok_named(items[k], n))
}

/// Adding one entry to a sequence of entries adds at most its name to the names listed.
proof fn lemma_names_listed_insert(before: Seq<Listed>, after: Seq<Listed>, x: Listed)
    requires
        after.to_multiset() == before.to_multiset().insert(x),
    ensures
        names_listed(after) == (if x.error is None {
            names_listed(before).insert(x.name@)
        } else {
            names_listed(before)
        }),
{
    before.to_multiset_ensures();
    after.to_multiset_ensures();
    let expected = if x.error is None {
        names_listed(before).insert(x.name@)
    } else {
        names_listed(before)
    };
    assert forall|n: Seq<char>| names_listed(after).contains(n) implies expected.contains(n) by {
        let i = choose|i: int| 0 <= i < after.len() && after[i].error is None && after[i].name@ == n;
        let y = after[i];
        assert(after.contains(y));
        assert(after.to_multiset().count(y) > 0);
        if y != x {
            assert(before.to_multiset().count(y) > 0);
            assert(before.contains(y));
            let j = choose|j: int| 0 <= j < before.len() && before[j] == y;
            assert(names_listed(before).contains(n));
        }
    }
    assert forall|n: Seq<char>| expected.contains(n) implies names_listed(after).contains(n) by {
        if names_listed(before).contains(n) {
            let j = choose|j: int| 0 <= j < before.len() && before[j].error is None && before[j].name@ == n;
            let y = before[j];
            assert(before.contains(y));
            assert(after.to_multiset().count(y) > 0);
            assert(after.contains(y));
            let i = choose|i: int| 0 <= i < after.len() && after[i] == y;
            assert(after[i].error is None && after[i].name@ == n);
        } else {
            assert(x.error is None && x.name@ == n);
            assert(after.to_multiset().count(x) > 0);
            assert(after.contains(x));
            let i = choose|i: int| 0 <= i < after.len() && after[i] == x;
            assert(after[i].error is None && after[i].name@ == n);
        }
    }
    assert(names_listed(after) =~= expected);
}

/// Converts a listing into entries sorted by name, keeping every name read.
pub(crate) fn sorted_listing(items: Vec<Result<String, IoErrorInfo>>) -> (r: Vec<Listed>)
    ensures
        sorted_by_name(r@),
        r@.len() == items@.len(),
        names_listed(r@) == listing_names(items@),
{
    let mut out: Vec<Listed> = Vec::new();
    let mut items = items;
    let ghost all = items@;
    proof {
        assert(names_listed(out@) =~= listing_names(all.subrange(all.len() as int, all.len() as int)));
    }
    // Consumed from the back; only entries read with an error share a (empty) name.
    while items.len() > 0
        invariant
            sorted_by_name(out@),
            out@.len() + items@.len() == all.len(),
            items@ == all.subrange(0, items@.len() as int),
            names_listed(out@) == listing_names(all.subrange(items@.len() as int, all.len() as int)),
        decreases items@.len(),
    {
        let ghost k = items@.len() - 1;
        let item = items.pop().unwrap();
        let listed = match item {
            Ok(name) => Listed { name: chars_of(name.as_str()), error: None },
            Err(e) => Listed { name: Vec::new(), error: Some(e) },
        };
        let ghost lv = listed;
        let ghost before = out@;
        insert_by_name(&mut out, listed);
        proof {
            lemma_names_listed_insert(before, out@, lv);
            let old_rest = all.subrange(k + 1, all.len() as int);
            let rest = all.subrange(k, all.len() as int);
            assert(rest[0] == all[k]);
            assert(all[k] == item);
            assert forall|n: Seq<char>| listing_names(rest).contains(n) == (listing_names(old_rest).contains(n) || is_ok_named(item, n)) by {
                if listing_names(rest).contains(n) {
                    let t = choose|t: int| 0 <= t < rest.len() && is_ok_named(rest[t], n);
                    if t > 0 {
                        assert(rest[t] == old_rest[t - 1]);
                    }
                }
                if listing_names(old_rest).contains(n) {
                    let t = choose|t: int| 0 <= t < old_rest.len() && is_ok_named(old_rest[t], n);
                    assert(rest[t + 1] == old_rest[t]);
                }
                if is_ok_named(item, n) {
                    assert(is_ok_named(rest[0], n));
                }
            }
            assert forall|n: Seq<char>| names_listed(out@).contains(n) == listing_names(rest).contains(n) by {
                if lv.error is None {
                    assert(is_ok_named(item, n) == (n == lv.name@));
                } else {
                    assert(!is_ok_named(item, n));
                }
            }
            assert(names_listed(out@) =~= listing_names(rest));
        }
    }
    assert(all.subrange(0, all.len() as int) =~= all);
    out
}

} // verus!
