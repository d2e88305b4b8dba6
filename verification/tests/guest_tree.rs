use convenience_tools::guest::{GuestFileAttributes, GuestFileEntry, GuestFileKind, GuestFileTimes, GuestPath};
use convenience_tools::guest_tree::{GuestDirectoryTree, GuestDirectoryTreeNode};

fn path(text: &str) -> GuestPath {
    GuestPath::new(text).unwrap()
}

fn entry(text: &str, kind: GuestFileKind) -> GuestFileEntry {
    GuestFileEntry {
        path: path(text),
        kind,
        size_bytes: 10,
        attributes: GuestFileAttributes::from_bits(0),
        times: GuestFileTimes { created: None, modified: None },
    }
}

fn node_paths(tree: &GuestDirectoryTree) -> Vec<String> {
    tree.nodes.iter().map(|n| n.entry.path.text.clone()).collect()
}

fn children(node: &GuestDirectoryTreeNode) -> Vec<String> {
    node.children.iter().map(|e| e.path.text.clone()).collect()
}

#[test]
fn a_new_tree_holds_the_open_root_only() {
    let tree = GuestDirectoryTree::new();
    assert_eq!(node_paths(&tree), vec![String::new()]);
    let root = &tree.nodes[0];
    assert!(root.expanded);
    assert!(!root.loaded);
    assert!(root.children.is_empty());
    assert!(root.entry.is_directory());
    assert!(!tree.tree_node_loaded(&GuestPath::root()));
}

#[test]
fn opening_a_deep_path_links_every_folder_on_the_way() {
    let mut tree = GuestDirectoryTree::new();
    tree.ensure_tree_path(&path("Users/Public/Music"));
    assert_eq!(node_paths(&tree), vec!["", "Users", "Users/Public", "Users/Public/Music"]);
    assert_eq!(children(&tree.nodes[0]), vec!["Users"]);
    assert_eq!(children(&tree.nodes[1]), vec!["Users/Public"]);
    assert_eq!(children(&tree.nodes[2]), vec!["Users/Public/Music"]);
    assert!(tree.nodes.iter().all(|n| n.expanded && !n.loaded));

    // Opening it again changes nothing.
    tree.ensure_tree_path(&path("Users/Public/Music"));
    assert_eq!(node_paths(&tree).len(), 4);
    assert_eq!(children(&tree.nodes[1]), vec!["Users/Public"]);
}

#[test]
fn choosing_a_tree_folder_loads_only_its_immediate_child_folders() {
    let mut tree = GuestDirectoryTree::new();
    let root_listing = vec![entry("Users", GuestFileKind::Directory), entry("boot.ini", GuestFileKind::File)];
    tree.update_tree_node(&GuestPath::root(), &root_listing);
    assert!(tree.tree_node_loaded(&GuestPath::root()));
    assert_eq!(children(&tree.nodes[0]), vec!["Users"]);
    assert!(!tree.tree_node_loaded(&path("Users")));

    // Choosing "Users" from the root moves the file list there.
    assert!(tree.select_tree_directory(&GuestPath::root(), &path("Users")));
    let users_listing =
        vec![entry("Users/Public", GuestFileKind::Directory), entry("Users/readme.txt", GuestFileKind::File)];
    tree.update_tree_node(&path("Users"), &users_listing);
    assert!(tree.tree_node_loaded(&path("Users")));
    let users = tree.nodes.iter().find(|n| n.entry.path.text == "Users").unwrap();
    assert_eq!(children(users), vec!["Users/Public"]);
    assert!(!node_paths(&tree).contains(&"Users/Public".to_string()));
    assert!(!tree.tree_node_loaded(&path("Users/Public")));
}

#[test]
fn choosing_the_shown_folder_again_folds_it() {
    let mut tree = GuestDirectoryTree::new();
    tree.ensure_tree_path(&path("Users"));
    assert!(tree.nodes[1].expanded);
    assert!(!tree.select_tree_directory(&path("Users"), &path("Users")));
    assert!(!tree.nodes[1].expanded);
    assert!(!tree.select_tree_directory(&path("Users"), &path("Users")));
    assert!(tree.nodes[1].expanded);
    // A folder without a node: nothing changes, but the list still moves.
    assert!(tree.select_tree_directory(&path("Users"), &path("Windows")));
    assert_eq!(node_paths(&tree).len(), 2);
}

#[test]
fn new_session_starts_at_guest_root_without_an_open_source() {
    // What a new browsing session holds: the root as the current folder, nothing
    // selected, and a tree of the root alone.
    let current = GuestPath::root();
    assert!(current.is_root());
    let selection = convenience_tools::guest::GuestSelection::new();
    assert_eq!(selection.len(), 0);
    let tree = GuestDirectoryTree::new();
    assert_eq!(tree.nodes.len(), 1);
    assert!(tree.nodes[0].entry.path.is_root());
}
