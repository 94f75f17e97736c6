use gitclub::auth::AuthUser;
use gitclub::scanner::{should_descend, FsNode, RepoEntry, RepoScanner};
use gitclub::tree::{attach_children, build_tree, index_entries, TreeNode};
use gitclub::visibility::{filter_entries, is_entry_visible, tree_for, TreeAccess};

fn dir(name: &str, children: Vec<FsNode>) -> FsNode {
    FsNode { name: name.to_string(), is_dir: true, children }
}

fn file(name: &str) -> FsNode {
    FsNode { name: name.to_string(), is_dir: false, children: Vec::new() }
}

fn entry(name: &str, path: &str, is_repo: bool) -> RepoEntry {
    RepoEntry { name: name.to_string(), path: path.to_string(), is_repo }
}

fn listing() -> Vec<FsNode> {
    vec![
        dir("alice", vec![
            dir(".meta", vec![dir("x.git", vec![])]),
            dir("proj.git", vec![dir("objects", vec![])]),
            file("notes.txt"),
            dir("team", vec![dir("tool.git", vec![]), dir("deep", vec![])]),
        ]),
        file("README"),
        dir("bob", vec![dir("site.git", vec![])]),
        dir("top.git", vec![]),
    ]
}

fn paths(es: &[RepoEntry]) -> Vec<(String, bool)> {
    es.iter().map(|e| (e.path.clone(), e.is_repo)).collect()
}

#[test]
fn scan_reports_groups_and_repositories() {
    let scanner = RepoScanner::new("/srv/repos".to_string());
    assert_eq!(scanner.repos_path(), "/srv/repos");
    let es = scanner.scan_directory(&listing());
    assert_eq!(
        paths(&es),
        vec![
            ("alice".to_string(), false),
            ("alice/proj.git".to_string(), true),
            ("alice/team".to_string(), false),
            ("alice/team/tool.git".to_string(), true),
            ("alice/team/deep".to_string(), false),
            ("bob".to_string(), false),
            ("bob/site.git".to_string(), true),
            ("top.git".to_string(), true),
        ]
    );
    assert_eq!(es[1].name, "proj.git");
}

#[test]
fn scan_enters_only_groups() {
    assert!(should_descend("team"));
    assert!(!should_descend(".meta"));
    assert!(!should_descend("proj.git"));
}

fn names(nodes: &[TreeNode]) -> Vec<String> {
    nodes.iter().map(|n| n.path.clone()).collect()
}

#[test]
fn tree_nests_entries_under_parents() {
    let es = vec![
        entry("alice", "alice", false),
        entry("proj.git", "alice/proj.git", true),
        entry("team", "alice/team", false),
        entry("tool.git", "alice/team/tool.git", true),
        entry("top.git", "top.git", true),
    ];
    let tree = build_tree(es);
    assert_eq!(names(&tree), vec!["alice", "top.git"]);
    assert_eq!(names(&tree[0].children), vec!["alice/proj.git", "alice/team"]);
    assert_eq!(names(&tree[0].children[1].children), vec!["alice/team/tool.git"]);
    assert!(tree[0].children[0].children.is_empty());
    assert!(tree[1].is_repo);
}

#[test]
fn tree_drops_orphans() {
    // An entry whose parent was not scanned does not appear.
    let es = vec![entry("x.git", "gone/x.git", true), entry("a", "a", false)];
    let tree = build_tree(es);
    assert_eq!(names(&tree), vec!["a"]);
    assert!(tree[0].children.is_empty());
}

#[test]
fn index_then_attach_is_the_tree() {
    let es = vec![entry("g", "g", false), entry("r.git", "g/r.git", true)];
    let (mut roots, index) = index_entries(&es);
    assert_eq!(names(&roots), vec!["g"]);
    assert!(roots[0].children.is_empty());
    attach_children(&mut roots, &index);
    assert_eq!(names(&roots[0].children), vec!["g/r.git"]);
}

fn user(name: &str, admin: bool) -> Option<AuthUser> {
    Some(AuthUser { user_id: 1, username: name.to_string(), is_admin: admin })
}

fn scanned() -> Vec<RepoEntry> {
    RepoScanner::new("/r".to_string()).scan_directory(&listing())
}

#[test]
fn nobody_signed_in_sees_nothing() {
    let access = TreeAccess { groups: vec![], repos: vec![], member_groups: vec![] };
    assert!(filter_entries(scanned(), &None, &access).is_empty());
}

#[test]
fn administrator_sees_everything() {
    let access = TreeAccess { groups: vec![], repos: vec![], member_groups: vec![] };
    let all = scanned();
    let shown = filter_entries(scanned(), &user("root", true), &access);
    assert_eq!(paths(&shown), paths(&all));
}

#[test]
fn user_sees_own_folder() {
    let access = TreeAccess { groups: vec![], repos: vec![], member_groups: vec![] };
    let shown = filter_entries(scanned(), &user("alice", false), &access);
    assert_eq!(
        paths(&shown).into_iter().map(|p| p.0).collect::<Vec<_>>(),
        vec!["alice", "alice/proj.git", "alice/team", "alice/team/tool.git", "alice/team/deep"]
    );
}

#[test]
fn granted_repository_shows_its_parents() {
    let access = TreeAccess {
        groups: vec![],
        repos: vec!["alice/team/tool.git".to_string()],
        member_groups: vec![],
    };
    let shown = filter_entries(scanned(), &user("carol", false), &access);
    assert_eq!(
        paths(&shown).into_iter().map(|p| p.0).collect::<Vec<_>>(),
        vec!["alice", "alice/team", "alice/team/tool.git"]
    );
    let tree = tree_for(scanned(), &user("carol", false), &access);
    assert_eq!(names(&tree), vec!["alice"]);
    assert_eq!(names(&tree[0].children), vec!["alice/team"]);
    assert_eq!(names(&tree[0].children[0].children), vec!["alice/team/tool.git"]);
}

#[test]
fn membership_without_subgroups_shows_direct_repositories() {
    let access = TreeAccess {
        groups: vec!["alice".to_string()],
        repos: vec![],
        member_groups: vec![("alice".to_string(), false)],
    };
    assert!(is_entry_visible("alice/proj.git", "carol", &access));
    assert!(!is_entry_visible("alice/team", "carol", &access));
    assert!(!is_entry_visible("alice/team/tool.git", "carol", &access));
    let with_sub = TreeAccess {
        groups: vec![],
        repos: vec![],
        member_groups: vec![("alice".to_string(), true)],
    };
    assert!(is_entry_visible("alice/team/tool.git", "carol", &with_sub));
    assert!(!is_entry_visible("bob/site.git", "carol", &with_sub));
}

#[test]
fn name_prefix_is_not_own_folder() {
    let access = TreeAccess { groups: vec![], repos: vec![], member_groups: vec![] };
    assert!(is_entry_visible("bob", "bob", &access));
    assert!(is_entry_visible("bob/site.git", "bob", &access));
    assert!(!is_entry_visible("bobby", "bob", &access));
}
