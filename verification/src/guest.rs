//! Browsing the files of an offline VirtualBox disk: guest paths, the selection
//! in the file list (single, additive and range selection), the messages shown for
//! disk errors, and the checks and summaries of copying guest entries out.

use vstd::prelude::*;
use crate::text::{chars_contains, chars_equal, chars_of, contains_seq, decimal, owned, push_all, push_decimal, push_str, string_from, trim, trim_chars};

verus! {

// ───────────────────────── guest paths ─────────────────────────

/// A path inside the guest file system, relative to the partition's root, with
/// `/` between components; the root is the empty path.
#[derive(Clone, Debug)]
pub struct GuestPath {
    pub text: String,
}

/// A `.` or `..` component starts at `i`.
pub open spec fn dot_component_at(t: Seq<char>, i: int) -> bool {
    &&& (i == 0 || t[i - 1] == '/')
    &&& t[i] == '.'
    &&& (i + 1 == t.len() || t[i + 1] == '/' || (t[i + 1] == '.' && (i + 2 == t.len() || t[i + 2] == '/')))
}

/// Two slashes in a row start at `i`.
pub open spec fn double_slash_at(t: Seq<char>, i: int) -> bool {
    t[i] == '/' && t[i + 1] == '/'
}

/// A guest path: empty, or components separated by single slashes, none of them
/// empty, `.` or `..`.
pub open spec fn valid_guest_path(t: Seq<char>) -> bool {
    t.len() == 0 || {
        &&& t[0] != '/'
        &&& t[t.len() - 1] != '/'
        &&& forall|i: int| 0 <= i < t.len() - 1 ==> !#[trigger] double_slash_at(t, i)
        &&& forall|i: int| 0 <= i < t.len() ==> !dot_component_at(t, i)
    }
}

/// Why a text is not a guest path.
#[derive(Clone, Copy, Debug, PartialEq, Eq, Structural)]
pub enum GuestPathError {
    /// An empty, `.` or `..` component, or a slash at either end.
    InvalidComponent,
}

impl GuestPath {
    /// The partition's root.
    pub fn root() -> (r: GuestPath)
        ensures
            r.text@.len() == 0,
    {
        GuestPath { text: string_from(Vec::new().as_slice()) }
    }

    /// The guest path written `text`, if it is one.
    pub fn new(text: &str) -> (r: Result<GuestPath, GuestPathError>)
        ensures
            valid_guest_path(text@) <==> r is Ok,
            r matches Ok(p) ==> p.text@ == text@,
    {
        let t = chars_of(text);
        let n = t.len();
        if n == 0 {
            return Ok(GuestPath { text: owned(text) });
        }
        if t[0] == '/' || t[n - 1] == '/' {
            return Err(GuestPathError::InvalidComponent);
        }
        let mut i: usize = 0;
        while i < n
            invariant
                n == t@.len(),
                t@ == text@,
                n > 0,
                t@[0] != '/',
                t@[n - 1] != '/',
                i <= n,
                forall|k: int| 0 <= k < i && k < n - 1 ==> !#[trigger] double_slash_at(t@, k),
                forall|k: int| 0 <= k < i ==> !dot_component_at(t@, k),
            decreases n - i,
        {
            if t[i] == '/' && i + 1 < n && t[i + 1] == '/' {
                proof {
                    assert(double_slash_at(t@, i as int));
                }
                return Err(GuestPathError::InvalidComponent);
            }
            let starts = i == 0 || t[i - 1] == '/';
            if starts && t[i] == '.' {
                let single = i + 1 == n || t[i + 1] == '/';
                let double = i + 1 < n && t[i + 1] == '.' && (i + 2 == n || t[i + 2] == '/');
                if single || double {
                    proof {
                        assert(dot_component_at(t@, i as int));
                    }
                    return Err(GuestPathError::InvalidComponent);
                }
            }
            i = i + 1;
        }
        Ok(GuestPath { text: owned(text) })
    }

    pub fn is_root(&self) -> (r: bool)
        ensures
            r == (self.text@.len() == 0),
    {
        self.text.as_str().is_empty()
    }

    pub fn as_str(&self) -> (r: &str)
        ensures
            r@ == self.text@,
    {
        self.text.as_str()
    }
}

/// The parent of a guest path: what precedes its last slash, the root when it has
/// none; the root has no parent.
pub open spec fn parent_text(t: Seq<char>) -> Option<Seq<char>> {
    if t.len() == 0 {
        None
    } else if exists|i: int| 0 <= i < t.len() && t[i] == '/' {
        let i = choose|i: int| 0 <= i < t.len() && t[i] == '/' && forall|j: int| i < j < t.len() ==> t[j] != '/';
        Some(t.subrange(0, i))
    } else {
        Some(Seq::empty())
    }
}

pub fn parent_guest_path(path: &GuestPath) -> (r: Option<GuestPath>)
    ensures
        match r {
            Some(p) => parent_text(path.text@) == Some(p.text@),
            None => parent_text(path.text@) is None,
        },
{
    let t = chars_of(path.text.as_str());
    let n = t.len();
    if n == 0 {
        return None;
    }
    let mut i = n;
    while i > 0 && t[i - 1] != '/'
        invariant
            i <= n == t@.len(),
            forall|j: int| i <= j < n ==> t@[j] != '/',
        decreases i,
    {
        i = i - 1;
    }
    if i == 0 {
        return Some(GuestPath::root());
    }
    let mut v: Vec<char> = Vec::new();
    let mut k: usize = 0;
    while k < i - 1
        invariant
            0 < i <= n == t@.len(),
            k <= i - 1,
            v@ == t@.subrange(0, k as int),
        decreases i - 1 - k,
    {
        v.push(t[k]);
        k = k + 1;
        assert(v@ =~= t@.subrange(0, k as int));
    }
    proof {
        let last = (i - 1) as int;
        let w = choose|w: int| 0 <= w < n && t@[w] == '/' && forall|j: int| w < j < n ==> t@[j] != '/';
        assert(t@[last] == '/');
        assert(w == last);
    }
    Some(GuestPath { text: string_from(v.as_slice()) })
}

// ───────────────────────── entries ─────────────────────────

/// What a guest entry is.
#[derive(Clone, Copy, Debug, PartialEq, Eq, Structural)]
pub enum GuestFileKind {
    File,
    Directory,
}

/// NTFS attribute bits of a guest entry.
#[derive(Clone, Copy, Debug, PartialEq, Eq, Structural)]
pub struct GuestFileAttributes {
    pub bits: u32,
}

pub const READ_ONLY_BITS: u32 = 0x1;
pub const HIDDEN_BITS: u32 = 0x2;
pub const SYSTEM_BITS: u32 = 0x4;

impl GuestFileAttributes {
    pub fn from_bits(bits: u32) -> (r: GuestFileAttributes)
        ensures
            r.bits == bits,
    {
        GuestFileAttributes { bits }
    }

    pub fn bits(&self) -> (r: u32)
        ensures
            r == self.bits,
    {
        self.bits
    }
}

impl Default for GuestFileAttributes {
    fn default() -> (r: GuestFileAttributes)
        ensures
            r.bits == 0,
    {
        GuestFileAttributes { bits: 0 }
    }
}

/// Time stamps of a guest entry (Unix seconds), where the file system has them.
#[derive(Clone, Copy, Debug, PartialEq, Eq, Structural)]
pub struct GuestFileTimes {
    pub created: Option<i64>,
    pub modified: Option<i64>,
}

impl Default for GuestFileTimes {
    fn default() -> (r: GuestFileTimes)
        ensures
            r.created is None,
            r.modified is None,
    {
        GuestFileTimes { created: None, modified: None }
    }
}

/// One entry of a guest folder.
#[derive(Clone, Debug)]
pub struct GuestFileEntry {
    pub path: GuestPath,
    pub kind: GuestFileKind,
    pub size_bytes: u64,
    pub attributes: GuestFileAttributes,
    pub times: GuestFileTimes,
}

impl GuestFileEntry {
    pub fn is_directory(&self) -> (r: bool)
        ensures
            r == (self.kind == GuestFileKind::Directory),
    {
        self.kind == GuestFileKind::Directory
    }
}

// ───────────────────────── selection ─────────────────────────

/// The selected entries of the file list, each path once.
#[derive(Clone, Debug)]
pub struct GuestSelection {
    pub paths: Vec<GuestPath>,
}

/// The texts of a list of paths.
pub open spec fn path_texts(paths: Seq<GuestPath>) -> Seq<Seq<char>> {
    paths.map_values(|p: GuestPath| p.text@)
}

impl GuestSelection {
    /// The selected paths, as a set of texts.
    pub open spec fn view_set(&self) -> Set<Seq<char>> {
        path_texts(self.paths@).to_set()
    }

    /// Each path is listed once.
    pub open spec fn wf(&self) -> bool {
        path_texts(self.paths@).no_duplicates()
    }

    pub fn new() -> (r: GuestSelection)
        ensures
            r.wf(),
            r.view_set() == Set::<Seq<char>>::empty(),
    {
        let r = GuestSelection { paths: Vec::new() };
        assert(path_texts(r.paths@) =~= Seq::<Seq<char>>::empty());
        r
    }

    /// Number of selected entries.
    pub fn len(&self) -> (r: usize)
        requires
            self.wf(),
        ensures
            r == self.view_set().len(),
    {
        proof {
            path_texts(self.paths@).unique_seq_to_set();
        }
        self.paths.len()
    }

    fn position(&self, text: &Vec<char>) -> (r: Option<usize>)
        ensures
            match r {
                Some(i) => i < self.paths@.len() && path_texts(self.paths@)[i as int] == text@,
                None => !path_texts(self.paths@).contains(text@),
            },
    {
        let mut i: usize = 0;
        while i < self.paths.len()
            invariant
                i <= self.paths@.len(),
                forall|k: int| 0 <= k < i ==> path_texts(self.paths@)[k] != text@,
            decreases self.paths@.len() - i,
        {
            let t = chars_of(self.paths[i].text.as_str());
            if chars_equal(t.as_slice(), text.as_slice()) {
                return Some(i);
            }
            i = i + 1;
        }
        None
    }

    /// Whether `path` is selected.
    pub fn contains(&self, path: &GuestPath) -> (r: bool)
        ensures
            r == self.view_set().contains(path.text@),
    {
        let t = chars_of(path.text.as_str());
        self.position(&t).is_some()
    }

    /// Unselects everything.
    pub fn clear(&mut self)
        ensures
            final(self).wf(),
            final(self).view_set() == Set::<Seq<char>>::empty(),
    {
        self.paths = Vec::new();
        assert(path_texts(self.paths@) =~= Seq::<Seq<char>>::empty());
    }

    /// Selects `path` (no change when it is selected already).
    pub fn insert(&mut self, path: GuestPath)
        requires
            old(self).wf(),
        ensures
            final(self).wf(),
            final(self).view_set() == old(self).view_set().insert(path.text@),
    {
        let t = chars_of(path.text.as_str());
        let ghost before = path_texts(self.paths@);
        if self.position(&t).is_none() {
            self.paths.push(path);
            let ghost now = path_texts(self.paths@);
            assert(now =~= before.push(t@));
            assert forall|x: Seq<char>| now.contains(x) == (before.contains(x) || x == t@) by {
                if now.contains(x) {
                    let k = choose|k: int| 0 <= k < now.len() && now[k] == x;
                    if k < before.len() {
                        assert(before[k] == x);
                    }
                }
                if before.contains(x) {
                    let k = choose|k: int| 0 <= k < before.len() && before[k] == x;
                    assert(now[k] == x);
                }
                if x == t@ {
                    assert(now[before.len() as int] == x);
                }
            }
        }
        assert(self.view_set() =~= old(self).view_set().insert(path.text@));
    }

    /// Unselects `text` when selected.
    fn remove_text(&mut self, text: &Vec<char>)
        requires
            old(self).wf(),
        ensures
            final(self).wf(),
            final(self).view_set() == old(self).view_set().remove(text@),
    {
        match self.position(text) {
            Some(i) => {
                let ghost before = path_texts(self.paths@);
                self.paths.remove(i);
                assert(path_texts(self.paths@) =~= before.remove(i as int));
                proof {
                    assert forall|x: Seq<char>| #[trigger] path_texts(self.paths@).contains(x) == (before.contains(x) && x != text@) by {
                        if path_texts(self.paths@).contains(x) {
                            let k = choose|k: int| 0 <= k < path_texts(self.paths@).len() && path_texts(self.paths@)[k] == x;
                            if k < i {
                                assert(before[k] == x);
                            } else {
                                assert(before[k + 1] == x);
                            }
                        }
                        if before.contains(x) && x != text@ {
                            let k = choose|k: int| 0 <= k < before.len() && before[k] == x;
                            if k < i {
                                assert(path_texts(self.paths@)[k] == x);
                            } else {
                                assert(path_texts(self.paths@)[k - 1] == x);
                            }
                        }
                    }
                }
                assert(self.view_set() =~= old(self).view_set().remove(text@));
            },
            None => {
                assert(self.view_set() =~= old(self).view_set().remove(text@));
            },
        }
    }
}

/// The selection after clicking `path`: a plain click leaves exactly that path
/// selected, an additive click toggles it in the selection.
pub open spec fn toggled(before: Set<Seq<char>>, path: Seq<char>, additive: bool) -> Set<Seq<char>> {
    let base = if additive {
        before
    } else {
        Set::empty()
    };
    if base.contains(path) {
        base.remove(path)
    } else {
        base.insert(path)
    }
}

pub fn toggle_guest_selection(selected: &mut GuestSelection, path: GuestPath, additive: bool)
    requires
        old(selected).wf(),
    ensures
        final(selected).wf(),
        final(selected).view_set() == toggled(old(selected).view_set(), path.text@, additive),
{
    if !additive {
        selected.clear();
    }
    if selected.contains(&path) {
        let t = chars_of(path.text.as_str());
        selected.remove_text(&t);
    } else {
        selected.insert(path);
    }
}

/// The index of the first entry whose path is `text`.
pub open spec fn first_index_of(entries: Seq<GuestFileEntry>, text: Seq<char>) -> Option<int> {
    if exists|i: int| 0 <= i < entries.len() && entries[i].path.text@ == text {
        Some(choose|i: int| 0 <= i < entries.len() && entries[i].path.text@ == text && forall|j: int| 0 <= j < i ==> entries[j].path.text@ != text)
    } else {
        None
    }
}

/// The paths of entries `start..=end`, as a set of texts.
pub open spec fn range_texts(entries: Seq<GuestFileEntry>, start: int, end: int) -> Set<Seq<char>> {
    Set::new(|t: Seq<char>| exists|i: int| start <= i <= end && entries[i].path.text@ == t)
}

proof fn lemma_range_step(entries: Seq<GuestFileEntry>, start: int, i: int)
    requires
        0 <= start <= i < entries.len(),
    ensures
        range_texts(entries, start, i) == range_texts(entries, start, i - 1).insert(entries[i].path.text@),
{
    assert(range_texts(entries, start, i) =~= range_texts(entries, start, i - 1).insert(entries[i].path.text@));
}

/// The selection of a shift-click on `target` from the anchor: every entry from
/// the anchor to the target, in either direction; none when the anchor is not
/// listed or the target is out of range.
pub open spec fn range_selection(entries: Seq<GuestFileEntry>, anchor: Seq<char>, target: int) -> Option<Set<Seq<char>>> {
    match first_index_of(entries, anchor) {
        None => None,
        Some(a) => {
            let (start, end) = if a <= target {
                (a, target)
            } else {
                (target, a)
            };
            if end >= entries.len() {
                None
            } else {
                Some(range_texts(entries, start, end))
            }
        },
    }
}

fn entry_index(entries: &Vec<GuestFileEntry>, text: &Vec<char>) -> (r: Option<usize>)
    ensures
        match r {
            Some(i) => first_index_of(entries@, text@) == Some(i as int),
            None => first_index_of(entries@, text@) is None,
        },
{
    let mut i: usize = 0;
    while i < entries.len()
        invariant
            i <= entries@.len(),
            forall|k: int| 0 <= k < i ==> entries@[k].path.text@ != text@,
        decreases entries@.len() - i,
    {
        let t = chars_of(entries[i].path.text.as_str());
        if chars_equal(t.as_slice(), text.as_slice()) {
            proof {
                let w = choose|w: int| 0 <= w < entries@.len() && entries@[w].path.text@ == text@ && forall|j: int| 0 <= j < w ==> entries@[j].path.text@ != text@;
                assert(entries@[i as int].path.text@ == text@);
                if w < i {
                } else if w > i {
                }
                assert(w == i);
            }
            return Some(i);
        }
        i = i + 1;
    }
    None
}

fn copy_path(p: &GuestPath) -> (r: GuestPath)
    ensures
        r.text@ == p.text@,
{
    GuestPath { text: string_from(chars_of(p.text.as_str()).as_slice()) }
}

pub fn select_guest_range(entries: &Vec<GuestFileEntry>, anchor: &GuestPath, target_index: usize) -> (r: Option<GuestSelection>)
    ensures
        match r {
            Some(s) => s.wf() && range_selection(entries@, anchor.text@, target_index as int) == Some(s.view_set()),
            None => range_selection(entries@, anchor.text@, target_index as int) is None,
        },
{
    let at = chars_of(anchor.text.as_str());
    let a = match entry_index(entries, &at) {
        Some(a) => a,
        None => {
            return None;
        },
    };
    let (start, end) = if a <= target_index {
        (a, target_index)
    } else {
        (target_index, a)
    };
    let len = entries.len();
    if end >= len {
        return None;
    }
    let mut sel = GuestSelection::new();
    assert(range_texts(entries@, start as int, start - 1) =~= Set::<Seq<char>>::empty());
    let mut i = start;
    while i <= end
        invariant
            start <= i <= end + 1,
            end < len == entries@.len(),
            sel.wf(),
            sel.view_set() == range_texts(entries@, start as int, i - 1),
        decreases end + 1 - i,
    {
        let p = copy_path(&entries[i].path);
        sel.insert(p);
        proof {
            lemma_range_step(entries@, start as int, i as int);
        }
        i = i + 1;
    }
    proof {
        let a0 = first_index_of(entries@, anchor.text@);
        assert(a0 == Some(a as int));
    }
    Some(sel)
}

/// All entries of the list, hidden and system entries included.
pub fn select_all_paths(entries: &Vec<GuestFileEntry>) -> (r: GuestSelection)
    ensures
        r.wf(),
        r.view_set() == Set::new(|t: Seq<char>| exists|i: int| 0 <= i < entries@.len() && entries@[i].path.text@ == t),
{
    let mut sel = GuestSelection::new();
    let mut i: usize = 0;
    while i < entries.len()
        invariant
            i <= entries@.len(),
            sel.wf(),
            sel.view_set() == Set::new(|t: Seq<char>| exists|k: int| 0 <= k < i && entries@[k].path.text@ == t),
        decreases entries@.len() - i,
    {
        let ghost before = sel.view_set();
        sel.insert(copy_path(&entries[i].path));
        proof {
            assert(Set::new(|t: Seq<char>| exists|k: int| 0 <= k < i + 1 && entries@[k].path.text@ == t) =~= before.insert(entries@[i as int].path.text@));
        }
        i = i + 1;
    }
    sel
}

/// The folder Enter opens: with exactly one entry selected, the first folder
/// entry whose path is selected.
pub open spec fn directory_to_enter(entries: Seq<GuestFileEntry>, selected: Set<Seq<char>>) -> Option<int> {
    if selected.len() != 1 {
        None
    } else if exists|i: int| 0 <= i < entries.len() && entries[i].kind == GuestFileKind::Directory && selected.contains(entries[i].path.text@) {
        Some(choose|i: int| 0 <= i < entries.len() && entries[i].kind == GuestFileKind::Directory && selected.contains(entries[i].path.text@) && forall|j: int| 0 <= j < i ==> !(entries[j].kind == GuestFileKind::Directory && selected.contains(entries[j].path.text@)))
    } else {
        None
    }
}

pub fn selected_directory_index(entries: &Vec<GuestFileEntry>, selected: &GuestSelection) -> (r: Option<usize>)
    requires
        selected.wf(),
    ensures
        match r {
            Some(i) => directory_to_enter(entries@, selected.view_set()) == Some(i as int),
            None => directory_to_enter(entries@, selected.view_set()) is None,
        },
{
    if selected.len() != 1 {
        return None;
    }
    let mut i: usize = 0;
    while i < entries.len()
        invariant
            i <= entries@.len(),
            selected.view_set().len() == 1,
            forall|k: int| 0 <= k < i ==> !(entries@[k].kind == GuestFileKind::Directory && selected.view_set().contains(entries@[k].path.text@)),
        decreases entries@.len() - i,
    {
        if entries[i].is_directory() && selected.contains(&entries[i].path) {
            proof {
                let s = selected.view_set();
                let w = choose|w: int| 0 <= w < entries@.len() && entries@[w].kind == GuestFileKind::Directory && s.contains(entries@[w].path.text@) && forall|j: int| 0 <= j < w ==> !(entries@[j].kind == GuestFileKind::Directory && s.contains(entries@[j].path.text@));
                assert(entries@[i as int].kind == GuestFileKind::Directory && s.contains(entries@[i as int].path.text@));
                if w < i {
                } else if w > i {
                }
                assert(w == i);
            }
            return Some(i);
        }
        i = i + 1;
    }
    None
}

// ───────────────────────── disk errors ─────────────────────────

/// Which part of a disk is in a format that cannot be read.
#[derive(Clone, Copy, Debug, PartialEq, Eq, Structural)]
pub enum UnsupportedFormatKind {
    FileSystem,
    PartitionTable,
}

/// Why a disk, a partition or a guest entry could not be read.
#[derive(Debug)]
pub enum VirtualDiskError {
    /// The disk image is in use or locked (a running virtual machine).
    ReadOnlyViolation(String),
    UnsupportedFormat { kind: UnsupportedFormatKind, detail: String },
    /// Reading one guest entry failed.
    GuestEntry { path: String, source: Box<VirtualDiskError> },
    /// Any other read error, with its own message.
    Io(String),
}

pub open spec fn contains_text(hay: Seq<char>, needle: Seq<char>) -> bool {
    contains_seq(hay, needle)
}

/// The message shown for a disk error.
pub open spec fn disk_error_text(e: VirtualDiskError) -> Seq<char>
    decreases e,
{
    match e {
        VirtualDiskError::ReadOnlyViolation(d) => "접근 차단: 실행 중인 VM이 사용 중이거나 잠금 상태인 VDI는 직접 읽을 수 없습니다. VM을 완전히 종료한 뒤 다시 시도하세요. ("@
            + d@ + ")"@,
        VirtualDiskError::UnsupportedFormat { kind, detail } => match kind {
            UnsupportedFormatKind::FileSystem => if contains_text(detail@, "BitLocker"@) {
                "BitLocker로 암호화된 파티션은 오프라인 파일 탐색을 지원하지 않습니다. 복구 키를 저장하거나 우회하지 않으며, 복호화된 사본을 선택하세요. ("@
                    + detail@ + ")"@
            } else if contains_text(detail@, "Microsoft Reserved"@) {
                "Microsoft Reserved(MSR) 예약 영역에는 탐색할 게스트 파일이 없습니다. ("@ + detail@
                    + ")"@
            } else {
                "지원하지 않는 파일시스템입니다. 현재 오프라인 탐색은 NTFS 3.1만 지원합니다. ("@
                    + detail@ + ")"@
            },
            UnsupportedFormatKind::PartitionTable => "지원하지 않는 파티션 테이블입니다. ("@ + detail@
                + ")"@,
        },
        VirtualDiskError::GuestEntry { path, source } => "게스트 항목 "@ + path@ + " 읽기 실패: "@
            + disk_error_text(*source),
        VirtualDiskError::Io(m) => "읽기 실패: "@ + m@,
    }
}

fn wrapped(head: &str, detail: &String) -> (r: Vec<char>)
    ensures
        r@ == head@ + detail@ + ")"@,
{
    let mut v: Vec<char> = Vec::new();
    push_str(&mut v, head);
    push_str(&mut v, detail.as_str());
    push_str(&mut v, ")");
    v
}

pub fn format_virtual_disk_error(error: &VirtualDiskError) -> (r: String)
    ensures
        r@ == disk_error_text(*error),
    decreases error,
{
    match error {
        VirtualDiskError::ReadOnlyViolation(d) => string_from(
            wrapped(
                "접근 차단: 실행 중인 VM이 사용 중이거나 잠금 상태인 VDI는 직접 읽을 수 없습니다. VM을 완전히 종료한 뒤 다시 시도하세요. (",
                d,
            ).as_slice(),
        ),
        VirtualDiskError::UnsupportedFormat { kind, detail } => {
            let dc = chars_of(detail.as_str());
            match kind {
                UnsupportedFormatKind::FileSystem => {
                    if chars_contains(dc.as_slice(), chars_of("BitLocker").as_slice()) {
                        string_from(
                            wrapped(
                                "BitLocker로 암호화된 파티션은 오프라인 파일 탐색을 지원하지 않습니다. 복구 키를 저장하거나 우회하지 않으며, 복호화된 사본을 선택하세요. (",
                                detail,
                            ).as_slice(),
                        )
                    } else if chars_contains(dc.as_slice(), chars_of("Microsoft Reserved").as_slice()) {
                        string_from(
                            wrapped(
                                "Microsoft Reserved(MSR) 예약 영역에는 탐색할 게스트 파일이 없습니다. (",
                                detail,
                            ).as_slice(),
                        )
                    } else {
                        string_from(
                            wrapped(
                                "지원하지 않는 파일시스템입니다. 현재 오프라인 탐색은 NTFS 3.1만 지원합니다. (",
                                detail,
                            ).as_slice(),
                        )
                    }
                },
                UnsupportedFormatKind::PartitionTable => string_from(
                    wrapped("지원하지 않는 파티션 테이블입니다. (", detail).as_slice(),
                ),
            }
        },
        VirtualDiskError::GuestEntry { path, source } => {
            let inner = format_virtual_disk_error(source);
            let mut v: Vec<char> = Vec::new();
            push_str(&mut v, "게스트 항목 ");
            push_str(&mut v, path.as_str());
            push_str(&mut v, " 읽기 실패: ");
            push_str(&mut v, inner.as_str());
            string_from(v.as_slice())
        },
        VirtualDiskError::Io(m) => {
            let mut v: Vec<char> = Vec::new();
            push_str(&mut v, "읽기 실패: ");
            push_str(&mut v, m.as_str());
            string_from(v.as_slice())
        },
    }
}

} // verus!
