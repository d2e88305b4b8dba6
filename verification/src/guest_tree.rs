//! The folder tree beside the guest file list.
//!
//! The tree is a flat list of nodes, one per guest folder it knows, each path
//! once. A node lists the child folders met so far; it is `loaded` once its
//! folder was listed, so that a folder's children are read only when the folder
//! is first chosen. Opening a deep path adds the nodes of all folders on the way
//! and links each under its parent.

use vstd::prelude::*;
use crate::guest::{GuestFileAttributes, GuestFileEntry, GuestFileKind, GuestFileTimes, GuestPath};
use crate::text::{chars_equal, chars_of, string_from};

verus! {

/// What the tree reads of a guest entry.
pub struct GuestEntryView {
    pub path: Seq<char>,
    pub kind: GuestFileKind,
    pub size_bytes: u64,
    pub attributes: u32,
    pub times: GuestFileTimes,
}

impl View for GuestFileEntry {
    type V = GuestEntryView;

    open spec fn view(&self) -> GuestEntryView {
        GuestEntryView {
            path: self.path.text@,
            kind: self.kind,
            size_bytes: self.size_bytes,
            attributes: self.attributes.bits,
            times: self.times,
        }
    }
}

/// One folder of the tree.
#[derive(Clone, Debug)]
pub struct GuestDirectoryTreeNode {
    pub entry: GuestFileEntry,
    /// The child folders met so far, in the order they were met.
    pub children: Vec<GuestFileEntry>,
    pub expanded: bool,
    /// Whether the folder itself was listed.
    pub loaded: bool,
}

/// A tree node as the specifications read it.
pub struct TreeNodeView {
    pub entry: GuestEntryView,
    pub children: Seq<GuestEntryView>,
    pub expanded: bool,
    pub loaded: bool,
}

pub open spec fn entry_views(es: Seq<GuestFileEntry>) -> Seq<GuestEntryView> {
    es.map_values(|e: GuestFileEntry| e@)
}

impl View for GuestDirectoryTreeNode {
    type V = TreeNodeView;

    open spec fn view(&self) -> TreeNodeView {
        TreeNodeView {
            entry: self.entry@,
            children: entry_views(self.children@),
            expanded: self.expanded,
            loaded: self.loaded,
        }
    }
}

/// The folder tree: its nodes, each folder once.
pub struct GuestDirectoryTree {
    pub nodes: Vec<GuestDirectoryTreeNode>,
}

pub open spec fn node_views(ns: Seq<GuestDirectoryTreeNode>) -> Seq<TreeNodeView> {
    ns.map_values(|n: GuestDirectoryTreeNode| n@)
}

impl View for GuestDirectoryTree {
    type V = Seq<TreeNodeView>;

    open spec fn view(&self) -> Seq<TreeNodeView> {
        node_views(self.nodes@)
    }
}

/// The entry of a folder known only by its path.
pub open spec fn folder_view(p: Seq<char>) -> GuestEntryView {
    GuestEntryView {
        path: p,
        kind: GuestFileKind::Directory,
        size_bytes: 0,
        attributes: 0,
        times: GuestFileTimes { created: None, modified: None },
    }
}

/// A node for a folder met on the way to another: open, nothing listed yet.
pub open spec fn new_node_view(p: Seq<char>) -> TreeNodeView {
    TreeNodeView { entry: folder_view(p), children: Seq::empty(), expanded: true, loaded: false }
}

/// The paths of the nodes, in order.
pub open spec fn node_paths(ns: Seq<TreeNodeView>) -> Seq<Seq<char>> {
    ns.map_values(|n: TreeNodeView| n.entry.path)
}

/// The paths of a list of entries, in order.
pub open spec fn entry_paths(es: Seq<GuestEntryView>) -> Seq<Seq<char>> {
    es.map_values(|e: GuestEntryView| e.path)
}

/// The nodes with one for `p` added at the end when there is none.
pub open spec fn with_node(ns: Seq<TreeNodeView>, p: Seq<char>) -> Seq<TreeNodeView> {
    if node_paths(ns).contains(p) {
        ns
    } else {
        ns.push(new_node_view(p))
    }
}

/// Links `child` under `parent`: `child` gets a node if it has none; the node of
/// `parent`, if there is one, is opened and lists the child's entry (once).
pub open spec fn link(ns: Seq<TreeNodeView>, parent: Seq<char>, child: Seq<char>) -> Seq<TreeNodeView> {
    let mid = with_node(ns, child);
    let child_entry = mid[node_paths(mid).index_of(child)].entry;
    if node_paths(mid).contains(parent) {
        let q = node_paths(mid).index_of(parent);
        let pn = mid[q];
        let kids = if entry_paths(pn.children).contains(child) {
            pn.children
        } else {
            pn.children.push(child_entry)
        };
        mid.update(q, TreeNodeView { entry: pn.entry, children: kids, expanded: true, loaded: pn.loaded })
    } else {
        mid
    }
}

/// Position of the last `/` of `t`, or -1.
pub open spec fn last_slash(t: Seq<char>) -> int
    decreases t.len(),
{
    if t.len() == 0 {
        -1
    } else if t.last() == '/' {
        t.len() - 1
    } else {
        last_slash(t.drop_last())
    }
}

/// The folder holding `t`: what precedes its last `/`, or the root.
pub open spec fn parent_prefix(t: Seq<char>) -> Seq<char> {
    if last_slash(t) < 0 {
        Seq::empty()
    } else {
        t.subrange(0, last_slash(t))
    }
}

/// `last_slash` is the position of the last `/`, or -1 when there is none.
pub proof fn lemma_last_slash_bounds(t: Seq<char>)
    ensures
        -1 <= last_slash(t) < t.len(),
        last_slash(t) >= 0 ==> t[last_slash(t)] == '/',
        forall|j: int| last_slash(t) < j < t.len() ==> t[j] != '/',
    decreases t.len(),
{
    if t.len() > 0 && t.last() != '/' {
        let d = t.drop_last();
        lemma_last_slash_bounds(d);
        assert forall|j: int| last_slash(t) < j < t.len() implies t[j] != '/' by {
            if j < t.len() - 1 {
                assert(t[j] == d[j]);
            }
        }
    }
}

/// The tree's parent of a path is the folder the file list goes up to.
pub proof fn lemma_parent_prefix_is_parent(t: Seq<char>)
    requires
        t.len() > 0,
    ensures
        crate::guest::parent_text(t) == Some(parent_prefix(t)),
{
    lemma_last_slash_bounds(t);
    if exists|i: int| 0 <= i < t.len() && t[i] == '/' {
        let k = last_slash(t);
        if k < 0 {
            let i = choose|i: int| 0 <= i < t.len() && t[i] == '/';
            assert(t[i] != '/');
        }
        let i = choose|i: int| 0 <= i < t.len() && t[i] == '/' && forall|j: int| i < j < t.len() ==> t[j] != '/';
        assert(t[k] == '/');
        if i < k {
            assert(t[k] != '/');
        }
        if i > k {
            assert(t[i] != '/');
        }
    } else {
        if last_slash(t) >= 0 {
            assert(t[last_slash(t)] == '/');
        }
    }
}

/// The nodes after linking every folder on the way to `t`, from the top down.
pub open spec fn linked_path(ns: Seq<TreeNodeView>, t: Seq<char>) -> Seq<TreeNodeView>
    decreases t.len(),
{
    if t.len() == 0 {
        ns
    } else {
        proof {
            lemma_last_slash_bounds(t);
        }
        let p = parent_prefix(t);
        link(linked_path(ns, p), p, t)
    }
}

/// The root's node.
pub open spec fn root_node_view() -> TreeNodeView {
    new_node_view(Seq::empty())
}

/// The nodes after opening path `t`: a tree with no node at all first gets the
/// root's, then every folder on the way is linked.
pub open spec fn ensured_tree(ns: Seq<TreeNodeView>, t: Seq<char>) -> Seq<TreeNodeView> {
    let base = if ns.len() == 0 { seq![root_node_view()] } else { ns };
    linked_path(base, t)
}

/// Whether an entry is a folder.
pub open spec fn is_folder() -> spec_fn(GuestEntryView) -> bool {
    |e: GuestEntryView| e.kind == GuestFileKind::Directory
}

/// The entries that are folders, in order.
pub open spec fn folder_entries(es: Seq<GuestEntryView>) -> Seq<GuestEntryView> {
    es.filter(is_folder())
}

/// The nodes after folder `t` was listed with `listing`: the path is opened, and
/// its node lists exactly the folders of the listing and is marked loaded.
pub open spec fn listed_tree(ns: Seq<TreeNodeView>, t: Seq<char>, listing: Seq<GuestEntryView>) -> Seq<TreeNodeView> {
    let e = ensured_tree(ns, t);
    if node_paths(e).contains(t) {
        let q = node_paths(e).index_of(t);
        e.update(q, TreeNodeView { entry: e[q].entry, children: folder_entries(listing), expanded: e[q].expanded, loaded: true })
    } else {
        e
    }
}

impl GuestDirectoryTree {
    /// Each folder has one node.
    pub open spec fn wf(&self) -> bool {
        node_paths(self@).no_duplicates()
    }
}


proof fn lemma_push_absent<A>(s: Seq<A>, x: A)
    requires
        s.no_duplicates(),
        !s.contains(x),
    ensures
        s.push(x).no_duplicates(),
{
    let t = s.push(x);
    assert forall|i: int, j: int| 0 <= i < t.len() && 0 <= j < t.len() && i != j implies t[i] != t[j] by {
        if i < s.len() && j < s.len() {
            assert(t[i] == s[i] && t[j] == s[j]);
        } else if i == s.len() {
            assert(t[j] == s[j]);
        } else {
            assert(t[i] == s[i]);
        }
    }
}

/// A copy of a guest entry.
pub fn copy_entry(e: &GuestFileEntry) -> (r: GuestFileEntry)
    ensures
        r@ == e@,
{
    GuestFileEntry {
        path: GuestPath { text: e.path.text.clone() },
        kind: e.kind,
        size_bytes: e.size_bytes,
        attributes: e.attributes,
        times: e.times,
    }
}

/// The node of a folder met on the way, for the path written `p`.
fn new_node(p: &[char]) -> (r: GuestDirectoryTreeNode)
    ensures
        r@ == new_node_view(p@),
{
    let r = GuestDirectoryTreeNode {
        entry: GuestFileEntry {
            path: GuestPath { text: string_from(p) },
            kind: GuestFileKind::Directory,
            size_bytes: 0,
            attributes: GuestFileAttributes { bits: 0 },
            times: GuestFileTimes { created: None, modified: None },
        },
        children: Vec::new(),
        expanded: true,
        loaded: false,
    };
    assert(r@.children =~= Seq::<GuestEntryView>::empty());
    r
}

impl GuestDirectoryTreeNode {
    /// The root's node: open, not listed yet.
    pub fn root() -> (r: GuestDirectoryTreeNode)
        ensures
            r@ == root_node_view(),
    {
        let empty: Vec<char> = Vec::new();
        new_node(empty.as_slice())
    }
}

/// Where the node of the folder written `t` stands.
fn find_node(nodes: &Vec<GuestDirectoryTreeNode>, t: &[char]) -> (r: Option<usize>)
    requires
        node_paths(node_views(nodes@)).no_duplicates(),
    ensures
        match r {
            Some(q) => {
                &&& q < nodes@.len()
                &&& node_paths(node_views(nodes@)).contains(t@)
                &&& q == node_paths(node_views(nodes@)).index_of(t@)
            },
            None => !node_paths(node_views(nodes@)).contains(t@),
        },
{
    let ghost paths = node_paths(node_views(nodes@));
    let mut i: usize = 0;
    while i < nodes.len()
        invariant
            i <= nodes@.len(),
            paths == node_paths(node_views(nodes@)),
            paths.no_duplicates(),
            forall|k: int| 0 <= k < i ==> paths[k] != t@,
        decreases nodes@.len() - i,
    {
        let text = chars_of(nodes[i].entry.path.text.as_str());
        if chars_equal(text.as_slice(), t) {
            proof {
                assert(paths[i as int] == t@);
                assert(paths.contains(t@));
                let j = paths.index_of(t@);
                assert(0 <= j < paths.len() && paths[j] == t@);
                if j != i {
                    assert(paths[j] != paths[i as int]);
                }
            }
            return Some(i);
        }
        i = i + 1;
    }
    proof {
        if paths.contains(t@) {
            let k = choose|k: int| 0 <= k < paths.len() && paths[k] == t@;
            assert(paths[k] == t@);
        }
    }
    None
}

/// Whether some entry of the list has the path written `t`.
fn has_child(children: &Vec<GuestFileEntry>, t: &[char]) -> (r: bool)
    ensures
        r == entry_paths(entry_views(children@)).contains(t@),
{
    let ghost paths = entry_paths(entry_views(children@));
    let mut i: usize = 0;
    while i < children.len()
        invariant
            i <= children@.len(),
            paths == entry_paths(entry_views(children@)),
            forall|k: int| 0 <= k < i ==> paths[k] != t@,
        decreases children@.len() - i,
    {
        let text = chars_of(children[i].path.text.as_str());
        if chars_equal(text.as_slice(), t) {
            assert(paths[i as int] == t@);
            return true;
        }
        i = i + 1;
    }
    proof {
        if paths.contains(t@) {
            let k = choose|k: int| 0 <= k < paths.len() && paths[k] == t@;
            assert(paths[k] == t@);
        }
    }
    false
}

impl GuestDirectoryTree {
    /// A tree holding only the root's node.
    pub fn new() -> (r: GuestDirectoryTree)
        ensures
            r.wf(),
            r@ == seq![root_node_view()],
    {
        let mut nodes: Vec<GuestDirectoryTreeNode> = Vec::new();
        nodes.push(GuestDirectoryTreeNode::root());
        let r = GuestDirectoryTree { nodes };
        assert(r@ =~= seq![root_node_view()]);
        assert(node_paths(r@) =~= seq![Seq::<char>::empty()]);
        r
    }

    /// Whether the folder at `path` has a node that was listed.
    pub fn tree_node_loaded(&self, path: &GuestPath) -> (r: bool)
        requires
            self.wf(),
        ensures
            r == (node_paths(self@).contains(path.text@) && self@[node_paths(self@).index_of(path.text@)].loaded),
    {
        let t = chars_of(path.as_str());
        match find_node(&self.nodes, t.as_slice()) {
            Some(q) => self.nodes[q].loaded,
            None => false,
        }
    }

    /// One step of opening a path: links `child` under `parent`, as [`link`] says.
    fn link_step(&mut self, parent: &[char], child: &[char])
        requires
            old(self).wf(),
        ensures
            final(self).wf(),
            final(self)@ == link(old(self)@, parent@, child@),
    {
        let ghost ns = self@;
        let ghost mid = with_node(ns, child@);
        let ci: usize = match find_node(&self.nodes, child) {
            Some(i) => i,
            None => {
                let node = new_node(child);
                let ghost before = self.nodes@;
                self.nodes.push(node);
                proof {
                    assert(node_views(self.nodes@) =~= node_views(before).push(node@));
                    assert(node_paths(self@) =~= node_paths(ns).push(child@));
                    lemma_push_absent(node_paths(ns), child@);
                }
                self.nodes.len() - 1
            }
        };
        proof {
            assert(self@ =~= mid);
            let paths = node_paths(mid);
            assert(paths.contains(child@)) by {
                assert(paths[ci as int] == child@);
            }
            let j = paths.index_of(child@);
            assert(paths[j] == child@);
            if j != ci {
                assert(paths[j] != paths[ci as int]);
            }
        }
        let child_entry = copy_entry(&self.nodes[ci].entry);
        match find_node(&self.nodes, parent) {
            Some(q) => {
                let ghost pn = mid[q as int];
                let mut node = self.nodes.remove(q);
                node.expanded = true;
                if !has_child(&node.children, child) {
                    let ghost kids = node.children@;
                    node.children.push(child_entry);
                    assert(entry_views(node.children@) =~= entry_views(kids).push(child_entry@));
                }
                let ghost before = self.nodes@;
                self.nodes.insert(q, node);
                proof {
                    let full = before.insert(q as int, node);
                    assert(self.nodes@ == full);
                    assert(node_views(self.nodes@) =~= mid.update(q as int, node@));
                    assert(node_paths(self@) =~= node_paths(mid));
                }
            },
            None => {},
        }
    }
}


proof fn lemma_last_slash_is(s: Seq<char>, k: int)
    requires
        -1 <= k < s.len(),
        k >= 0 ==> s[k] == '/',
        forall|j: int| k < j < s.len() ==> s[j] != '/',
    ensures
        last_slash(s) == k,
    decreases s.len(),
{
    if s.len() > 0 && k < s.len() - 1 {
        let d = s.drop_last();
        assert forall|j: int| k < j < d.len() implies d[j] != '/' by {
            assert(d[j] == s[j]);
        }
        lemma_last_slash_is(d, k);
    }
}

/// The folder the next component of `t` hangs under, when that component starts
/// at `start`.
pub open spec fn parent_at(t: Seq<char>, start: int) -> Seq<char> {
    if start == 0 { Seq::empty() } else { t.subrange(0, start - 1) }
}

proof fn lemma_next_prefix(t: Seq<char>, start: int, i: int)
    requires
        0 <= start <= i <= t.len(),
        0 < i,
        start == 0 || t[start - 1] == '/',
        forall|j: int| start <= j < i ==> t[j] != '/',
    ensures
        parent_prefix(t.subrange(0, i)) == parent_at(t, start),
{
    let s = t.subrange(0, i);
    assert forall|j: int| start - 1 < j < s.len() implies s[j] != '/' by {
        assert(s[j] == t[j]);
    }
    if start > 0 {
        assert(s[start - 1] == t[start - 1]);
    }
    lemma_last_slash_is(s, start - 1);
    if start > 0 {
        assert(s.subrange(0, start - 1) =~= t.subrange(0, start - 1));
    }
}

impl GuestDirectoryTree {
    /// Opens the path in the tree, as [`ensured_tree`] says: every folder on the
    /// way gets a node and is listed, and opened, under its parent.
    pub fn ensure_tree_path(&mut self, path: &GuestPath)
        requires
            old(self).wf(),
            crate::guest::valid_guest_path(path.text@),
        ensures
            final(self).wf(),
            final(self)@ == ensured_tree(old(self)@, path.text@),
    {
        if self.nodes.len() == 0 {
            self.nodes.push(GuestDirectoryTreeNode::root());
            assert(self@ =~= seq![root_node_view()]);
            assert(node_paths(self@) =~= seq![Seq::<char>::empty()]);
        }
        let ghost base = self@;
        let t = chars_of(path.as_str());
        let n = t.len();
        if n == 0 {
            return;
        }
        let mut start: usize = 0;
        let mut i: usize = 0;
        while i < n
            invariant
                n == t@.len(),
                t@ == path.text@,
                crate::guest::valid_guest_path(t@),
                0 < n,
                start <= i <= n,
                start == 0 || t@[start - 1] == '/',
                start == 0 || start < n,
                forall|j: int| start <= j < i ==> t@[j] != '/',
                self.wf(),
                self@ == linked_path(base, parent_at(t@, start as int)),
            decreases n - i,
        {
            if t[i] == '/' {
                proof {
                    lemma_next_prefix(t@, start as int, i as int);
                }
                let prefix = slice_prefix(&t, i);
                let parent = slice_prefix(&t, if start == 0 { 0 } else { start - 1 });
                self.link_step(parent.as_slice(), prefix.as_slice());
                proof {
                    assert(parent_at(t@, start as int) =~= parent@);
                    assert(t@.subrange(0, i as int).len() > 0);
                    assert(parent_at(t@, i + 1) == t@.subrange(0, i as int));
                }
                start = i + 1;
            }
            i = i + 1;
        }
        proof {
            lemma_next_prefix(t@, start as int, n as int);
            assert(t@.subrange(0, n as int) =~= t@);
        }
        let parent = slice_prefix(&t, if start == 0 { 0 } else { start - 1 });
        assert(parent_at(t@, start as int) =~= parent@);
        self.link_step(parent.as_slice(), t.as_slice());
    }
}

/// The first `k` characters.
fn slice_prefix(t: &Vec<char>, k: usize) -> (r: Vec<char>)
    requires
        k <= t@.len(),
    ensures
        r@ == t@.subrange(0, k as int),
{
    let mut r: Vec<char> = Vec::new();
    let mut j: usize = 0;
    while j < k
        invariant
            j <= k <= t@.len(),
            r@ == t@.subrange(0, j as int),
        decreases k - j,
    {
        r.push(t[j]);
        j = j + 1;
        assert(r@ =~= t@.subrange(0, j as int));
    }
    r
}


impl GuestDirectoryTree {
    /// Records the listing of the folder at `path`: the path is opened, and its
    /// node lists exactly the folders among `entries` and is marked loaded.
    pub fn update_tree_node(&mut self, path: &GuestPath, entries: &Vec<GuestFileEntry>)
        requires
            old(self).wf(),
            crate::guest::valid_guest_path(path.text@),
        ensures
            final(self).wf(),
            final(self)@ == listed_tree(old(self)@, path.text@, entry_views(entries@)),
    {
        self.ensure_tree_path(path);
        let ghost e = self@;
        let mut folders: Vec<GuestFileEntry> = Vec::new();
        let mut i: usize = 0;
        while i < entries.len()
            invariant
                i <= entries@.len(),
                entry_views(folders@) == folder_entries(entry_views(entries@.subrange(0, i as int))),
            decreases entries@.len() - i,
        {
            let ghost pre = entry_views(entries@.subrange(0, i as int));
            let ghost before = folders@;
            if entries[i].is_directory() {
                folders.push(copy_entry(&entries[i]));
                assert(entry_views(folders@) =~= entry_views(before).push(entries@[i as int]@));
            }
            proof {
                let now = entry_views(entries@.subrange(0, i + 1));
                assert(now =~= pre.push(entries@[i as int]@));
                pre.lemma_filter_push(entries@[i as int]@, is_folder());
            }
            i = i + 1;
        }
        assert(entries@.subrange(0, entries@.len() as int) =~= entries@);
        let t = chars_of(path.as_str());
        match find_node(&self.nodes, t.as_slice()) {
            Some(q) => {
                let mut node = self.nodes.remove(q);
                node.children = folders;
                node.loaded = true;
                let ghost before = self.nodes@;
                self.nodes.insert(q, node);
                proof {
                    assert(self.nodes@ == before.insert(q as int, node));
                    assert(node_views(self.nodes@) =~= e.update(q as int, node@));
                    assert(node_paths(self@) =~= node_paths(e));
                }
            },
            None => {},
        }
    }

    /// Chooses the folder at `path` in the tree, standing at `current`. Choosing
    /// the folder already shown folds or unfolds its node; choosing another opens
    /// its node, and the result says that the file list moves there.
    pub fn select_tree_directory(&mut self, current: &GuestPath, path: &GuestPath) -> (moves: bool)
        requires
            old(self).wf(),
        ensures
            final(self).wf(),
            moves == (current.text@ != path.text@),
            node_paths(old(self)@).contains(path.text@) ==> {
                let q = node_paths(old(self)@).index_of(path.text@);
                let n = old(self)@[q];
                final(self)@ == old(self)@.update(q, TreeNodeView {
                    entry: n.entry,
                    children: n.children,
                    expanded: if moves { true } else { !n.expanded },
                    loaded: n.loaded,
                })
            },
            !node_paths(old(self)@).contains(path.text@) ==> final(self)@ == old(self)@,
    {
        let cur = chars_of(current.as_str());
        let t = chars_of(path.as_str());
        let moves = !chars_equal(cur.as_slice(), t.as_slice());
        match find_node(&self.nodes, t.as_slice()) {
            Some(q) => {
                let ghost e = self@;
                let mut node = self.nodes.remove(q);
                node.expanded = if moves { true } else { !node.expanded };
                let ghost before = self.nodes@;
                self.nodes.insert(q, node);
                proof {
                    assert(self.nodes@ == before.insert(q as int, node));
                    assert(node_views(self.nodes@) =~= e.update(q as int, node@));
                    assert(node_paths(self@) =~= node_paths(e));
                }
            },
            None => {},
        }
        moves
    }
}


// ───────────────────────── laws ─────────────────────────

/// `b` is `a` later on: the same folder, listed as before, and its child list
/// only grown at the end.
pub open spec fn node_grows(a: TreeNodeView, b: TreeNodeView) -> bool {
    &&& b.entry == a.entry
    &&& b.loaded == a.loaded
    &&& a.children.len() <= b.children.len()
    &&& b.children.subrange(0, a.children.len() as int) == a.children
}

/// Every node of `a` is still at its place in `b`, grown at most.
pub open spec fn tree_grows(a: Seq<TreeNodeView>, b: Seq<TreeNodeView>) -> bool {
    &&& a.len() <= b.len()
    &&& forall|i: int| 0 <= i < a.len() ==> node_grows(#[trigger] a[i], b[i])
}

proof fn lemma_tree_grows_trans(a: Seq<TreeNodeView>, b: Seq<TreeNodeView>, c: Seq<TreeNodeView>)
    requires
        tree_grows(a, b),
        tree_grows(b, c),
    ensures
        tree_grows(a, c),
{
    assert forall|i: int| 0 <= i < a.len() implies node_grows(#[trigger] a[i], c[i]) by {
        assert(node_grows(a[i], b[i]));
        assert(node_grows(b[i], c[i]));
        let k = a[i].children.len() as int;
        assert(c[i].children.subrange(0, k) =~= b[i].children.subrange(0, k)) by {
            assert forall|j: int| 0 <= j < k implies c[i].children[j] == b[i].children[j] by {
                assert(c[i].children.subrange(0, b[i].children.len() as int)[j] == b[i].children[j]);
            }
        }
    }
}

proof fn lemma_grows_keeps_paths(a: Seq<TreeNodeView>, b: Seq<TreeNodeView>, p: Seq<char>)
    requires
        tree_grows(a, b),
        node_paths(a).contains(p),
    ensures
        node_paths(b).contains(p),
{
    let k = choose|k: int| 0 <= k < node_paths(a).len() && node_paths(a)[k] == p;
    assert(node_grows(a[k], b[k]));
    assert(node_paths(b)[k] == p);
}

proof fn lemma_link(ns: Seq<TreeNodeView>, parent: Seq<char>, child: Seq<char>)
    requires
        node_paths(ns).no_duplicates(),
    ensures
        tree_grows(ns, link(ns, parent, child)),
        node_paths(link(ns, parent, child)).no_duplicates(),
        node_paths(link(ns, parent, child)).contains(child),
        node_paths(link(ns, parent, child)) == node_paths(with_node(ns, child)),
{
    let mid = with_node(ns, child);
    if !node_paths(ns).contains(child) {
        assert(node_paths(mid) =~= node_paths(ns).push(child));
        lemma_push_absent(node_paths(ns), child);
        assert(node_paths(mid)[ns.len() as int] == child);
    } else {
        let k = choose|k: int| 0 <= k < node_paths(ns).len() && node_paths(ns)[k] == child;
        assert(node_paths(mid)[k] == child);
    }
    assert(tree_grows(ns, mid)) by {
        assert forall|i: int| 0 <= i < ns.len() implies node_grows(#[trigger] ns[i], mid[i]) by {
            assert(mid[i] == ns[i]);
            assert(ns[i].children.subrange(0, ns[i].children.len() as int) =~= ns[i].children);
        }
    }
    let r = link(ns, parent, child);
    if node_paths(mid).contains(parent) {
        let q = node_paths(mid).index_of(parent);
        assert(node_paths(r) =~= node_paths(mid));
        assert(tree_grows(mid, r)) by {
            assert forall|i: int| 0 <= i < mid.len() implies node_grows(#[trigger] mid[i], r[i]) by {
                let c = mid[i].children;
                if i == q {
                    assert(r[i].children.subrange(0, c.len() as int) =~= c);
                } else {
                    assert(r[i] == mid[i]);
                    assert(c.subrange(0, c.len() as int) =~= c);
                }
            }
        }
        lemma_tree_grows_trans(ns, mid, r);
    }
}

proof fn lemma_linked_path(ns: Seq<TreeNodeView>, t: Seq<char>)
    requires
        node_paths(ns).no_duplicates(),
    ensures
        tree_grows(ns, linked_path(ns, t)),
        node_paths(linked_path(ns, t)).no_duplicates(),
    decreases t.len(),
{
    if t.len() == 0 {
        assert(tree_grows(ns, ns)) by {
            assert forall|i: int| 0 <= i < ns.len() implies node_grows(#[trigger] ns[i], ns[i]) by {
                assert(ns[i].children.subrange(0, ns[i].children.len() as int) =~= ns[i].children);
            }
        }
    } else {
        lemma_last_slash_bounds(t);
        let p = parent_prefix(t);
        lemma_linked_path(ns, p);
        lemma_link(linked_path(ns, p), p, t);
        lemma_tree_grows_trans(ns, linked_path(ns, p), linked_path(ns, t));
    }
}

/// Opening a path forgets nothing: every node already in the tree keeps its place,
/// its folder and whether it was listed, and its child list only grows at the end;
/// the tree still has one node per folder.
pub proof fn lemma_open_keeps_known_folders(ns: Seq<TreeNodeView>, t: Seq<char>)
    requires
        node_paths(ns).no_duplicates(),
    ensures
        tree_grows(ns, ensured_tree(ns, t)),
        node_paths(ensured_tree(ns, t)).no_duplicates(),
{
    if ns.len() == 0 {
        let base = seq![root_node_view()];
        assert(node_paths(base) =~= seq![Seq::<char>::empty()]);
        lemma_linked_path(base, t);
    } else {
        lemma_linked_path(ns, t);
    }
}

/// Opening a path gives every folder on the way a node: each prefix of the path
/// that ends before a `/`, and the path itself.
pub proof fn lemma_open_reaches_every_folder(ns: Seq<TreeNodeView>, t: Seq<char>, k: int)
    requires
        node_paths(ns).no_duplicates(),
        0 < k <= t.len(),
        k == t.len() || t[k] == '/',
    ensures
        node_paths(ensured_tree(ns, t)).contains(t.subrange(0, k)),
{
    let base = if ns.len() == 0 { seq![root_node_view()] } else { ns };
    if ns.len() == 0 {
        assert(node_paths(base) =~= seq![Seq::<char>::empty()]);
    }
    lemma_linked_path_reaches(base, t, k);
}

proof fn lemma_linked_path_reaches(ns: Seq<TreeNodeView>, t: Seq<char>, k: int)
    requires
        node_paths(ns).no_duplicates(),
        0 < k <= t.len(),
        k == t.len() || t[k] == '/',
    ensures
        node_paths(linked_path(ns, t)).contains(t.subrange(0, k)),
    decreases t.len(),
{
    lemma_last_slash_bounds(t);
    let p = parent_prefix(t);
    lemma_linked_path(ns, p);
    lemma_link(linked_path(ns, p), p, t);
    if k == t.len() {
        assert(t.subrange(0, k) =~= t);
    } else {
        // The `/` at `k` is at or before the last one.
        assert(k <= last_slash(t));
        lemma_linked_path_reaches(ns, p, k);
        assert(p.subrange(0, k) =~= t.subrange(0, k));
        lemma_grows_keeps_paths(linked_path(ns, p), linked_path(ns, t), t.subrange(0, k));
    }
}

/// After opening a path, its parent folder's node, when the tree has one, lists
/// the path among its children.
pub proof fn lemma_open_links_under_parent(ns: Seq<TreeNodeView>, t: Seq<char>)
    requires
        node_paths(ns).no_duplicates(),
        t.len() > 0,
        node_paths(ensured_tree(ns, t)).contains(parent_prefix(t)),
    ensures
        entry_paths(ensured_tree(ns, t)[node_paths(ensured_tree(ns, t)).index_of(parent_prefix(t))].children)
            .contains(t),
{
    let base = if ns.len() == 0 { seq![root_node_view()] } else { ns };
    if ns.len() == 0 {
        assert(node_paths(base) =~= seq![Seq::<char>::empty()]);
    }
    lemma_last_slash_bounds(t);
    let p = parent_prefix(t);
    let before = linked_path(base, p);
    lemma_linked_path(base, p);
    lemma_link(before, p, t);
    let mid = with_node(before, t);
    let r = link(before, p, t);
    assert(r == ensured_tree(ns, t));
    assert(node_paths(r) == node_paths(mid));
    let q = node_paths(mid).index_of(p);
    let pn = mid[q];
    if !entry_paths(pn.children).contains(t) {
        let kids = pn.children.push(mid[node_paths(mid).index_of(t)].entry);
        assert(node_paths(mid).contains(t));
        let j = node_paths(mid).index_of(t);
        assert(node_paths(mid)[j] == t);
        assert(entry_paths(kids)[kids.len() - 1] == t);
    }
}

/// Listing a folder marks its node loaded with exactly the folders of the listing
/// as children; the other nodes are those of the opened path.
pub proof fn lemma_listing_loads_the_folder(ns: Seq<TreeNodeView>, t: Seq<char>, listing: Seq<GuestEntryView>)
    requires
        node_paths(ns).no_duplicates(),
        t.len() > 0 || ns.len() == 0 || node_paths(ns).contains(t),
    ensures
        node_paths(listed_tree(ns, t, listing)).contains(t),
        listed_tree(ns, t, listing)[node_paths(listed_tree(ns, t, listing)).index_of(t)].loaded,
        listed_tree(ns, t, listing)[node_paths(listed_tree(ns, t, listing)).index_of(t)].children
            == folder_entries(listing),
{
    let e = ensured_tree(ns, t);
    lemma_open_keeps_known_folders(ns, t);
    if t.len() > 0 {
        lemma_open_reaches_every_folder(ns, t, t.len() as int);
        assert(t.subrange(0, t.len() as int) =~= t);
    } else if ns.len() == 0 {
        assert(e == seq![root_node_view()]);
        assert(node_paths(e)[0] == t);
    } else {
        lemma_grows_keeps_paths(ns, e, t);
    }
    let q = node_paths(e).index_of(t);
    let r = listed_tree(ns, t, listing);
    assert(node_paths(r) =~= node_paths(e));
}

} // verus!
