use gitclub::api::{
    check_group_access, check_repo_access, dir_size, file_reply, group_detail, group_entry_kind,
    group_member_infos, group_meta_dir, group_repo_info, group_subgroup_info, order_by_name,
    owner_info, plan_group, plan_repo, repo_display_name, repo_member_infos, repo_meta_dir,
    repo_page_plan, sees_subgroups, show_ref, CreateGroupRequest, CreateRepoRequest,
    FileContentQuery, GroupEntryKind, MemberFlag, RepoDetailQuery, RepoFacts, SizedNode,
};
use gitclub::auth::AuthUser;
use gitclub::db::{GroupMember, RepositoryMember, User};

fn alice() -> AuthUser {
    AuthUser { user_id: 7, username: "alice".to_string(), is_admin: false }
}

fn admin() -> AuthUser {
    AuthUser { user_id: 1, username: "root".to_string(), is_admin: true }
}

fn group_req(name: &str, parent: Option<&str>) -> CreateGroupRequest {
    CreateGroupRequest { name: name.to_string(), parent_path: parent.map(|p| p.to_string()), description: None }
}

fn repo_req(name: &str, parent: Option<&str>) -> CreateRepoRequest {
    CreateRepoRequest { name: name.to_string(), parent_path: parent.map(|p| p.to_string()), description: None }
}

#[test]
fn group_placement() {
    assert_eq!(plan_group(&group_req("team", Some("alice")), &alice()).ok(), Some("alice/team".to_string()));
    assert_eq!(plan_group(&group_req("alice", None), &alice()).ok(), Some("alice".to_string()));
    let e = plan_group(&group_req("team", Some("bob")), &alice()).err().unwrap();
    assert_eq!((e.status, e.message.as_str()), (403, "You can only create groups in your own folder"));
    let e = plan_group(&group_req("x.git/y", Some("alice")), &alice()).err().unwrap();
    assert_eq!(e.status, 400);
    assert!(e.message.starts_with("Group path cannot contain segments ending with .git"));
    assert_eq!(plan_group(&group_req("team", Some("bob")), &admin()).ok(), Some("bob/team".to_string()));
    // A name that only starts like the user's is not their folder.
    assert!(plan_group(&group_req("alicex", None), &alice()).is_err());
}

#[test]
fn repository_placement() {
    let p = plan_repo(&repo_req("proj", Some("alice/team")), &alice()).ok().unwrap();
    assert_eq!(p.repo_name, "proj.git");
    assert_eq!(p.path, "alice/team/proj.git");
    assert_eq!(p.group_path, "alice/team");
    let p = plan_repo(&repo_req("proj.git", None), &admin()).ok().unwrap();
    assert_eq!(p.path, "proj.git");
    assert_eq!(p.group_path, "root");
    // Without a parent, an ordinary user's repository would land outside their folder.
    assert_eq!(plan_repo(&repo_req("proj.git", None), &alice()).err().unwrap().status, 403);
    let e = plan_repo(&repo_req("a.git/b", Some("alice")), &alice()).err().unwrap();
    assert_eq!((e.status, e.message.as_str()), (400, "Repository path cannot contain .git in intermediate segments."));
    let e = plan_repo(&repo_req("p", Some("bob")), &alice()).err().unwrap();
    assert_eq!((e.status, e.message.as_str()), (403, "You can only create repositories in your own folder"));
    assert!(plan_repo(&repo_req("p", Some("bob")), &admin()).is_ok());
}

#[test]
fn metadata_directories() {
    assert_eq!(group_meta_dir("/r/alice/team"), "/r/alice/team/.meta/.meta");
    assert_eq!(repo_meta_dir("/r", &Some("alice/team".to_string()), "proj.git"), "/r/alice/team/.meta/proj.git");
    assert_eq!(repo_meta_dir("/r", &None, "proj.git"), "/r/.meta/proj.git");
}

#[test]
fn repository_access() {
    let r = check_repo_access(&None, "alice/p.git", true).unwrap();
    assert_eq!((r.status, r.message.as_str()), (401, "Authentication required"));
    assert!(check_repo_access(&Some(alice()), "alice/p.git", false).is_none());
    // The name alone as a prefix is enough for repositories.
    assert!(check_repo_access(&Some(alice()), "alicex/p.git", false).is_none());
    let r = check_repo_access(&Some(alice()), "bob/p.git", false).unwrap();
    assert_eq!((r.status, r.message.as_str()), (403, "Access denied"));
    assert!(check_repo_access(&Some(alice()), "bob/p.git", true).is_none());
    assert!(check_repo_access(&Some(admin()), "bob/p.git", false).is_none());
}

#[test]
fn group_access() {
    assert!(check_group_access(&Some(alice()), "alice", false).is_none());
    assert!(check_group_access(&Some(alice()), "alice/team", false).is_none());
    assert_eq!(check_group_access(&Some(alice()), "alicex", false).unwrap().status, 403);
    assert_eq!(check_group_access(&None, "alice", false).unwrap().status, 401);
    assert!(check_group_access(&Some(alice()), "bob", true).is_none());
}

#[test]
fn repository_page_plans() {
    let plan = repo_page_plan(RepoDetailQuery { path: None, branch: None }, Some("main".to_string()));
    assert_eq!(plan.branch, Some("main".to_string()));
    assert_eq!(plan.file_path, "");
    assert!(plan.list_files && plan.read_readme);
    let plan = repo_page_plan(
        RepoDetailQuery { path: Some("src".to_string()), branch: Some("dev".to_string()) },
        Some("main".to_string()),
    );
    assert_eq!(plan.branch, Some("dev".to_string()));
    assert!(plan.list_files && !plan.read_readme);
    let plan = repo_page_plan(RepoDetailQuery { path: None, branch: None }, None);
    assert!(plan.branch.is_none() && !plan.list_files && !plan.read_readme);
    assert_eq!(repo_display_name("alice/team/proj.git"), "proj");
    assert_eq!(repo_display_name("x.git.git"), "x");
}

#[test]
fn file_requests() {
    let q = FileContentQuery { file: "src/main.rs".to_string(), branch: None };
    assert_eq!(show_ref(&q, Some("main".to_string())).ok(), Some("main:src/main.rs".to_string()));
    let e = show_ref(&q, None).err().unwrap();
    assert_eq!((e.status, e.message.as_str()), (400, "No branch specified and no default branch found"));
    let q = FileContentQuery { file: "a".to_string(), branch: Some("dev".to_string()) };
    assert_eq!(show_ref(&q, Some("main".to_string())).ok(), Some("dev:a".to_string()));
    let f = file_reply(Some(b"hello\n".to_vec())).ok().unwrap();
    assert_eq!((f.content.as_str(), f.is_binary, f.size), ("hello\n", false, 6));
    let f = file_reply(Some(vec![1, 0, 2])).ok().unwrap();
    assert_eq!((f.content.as_str(), f.is_binary, f.size), ("[Binary file]", true, 3));
    let f = file_reply(Some(vec![0xff, b'a'])).ok().unwrap();
    assert_eq!(f.content, String::from_utf8_lossy(&[0xff, b'a']).to_string());
    let e = file_reply(None).err().unwrap();
    assert_eq!((e.status, e.message.as_str()), (404, "File not found"));
}

#[test]
fn binary_only_within_first_8000_bytes() {
    let mut late = vec![b'a'; 8001];
    late[8000] = 0;
    assert!(!file_reply(Some(late)).ok().unwrap().is_binary);
    let mut early = vec![b'a'; 8001];
    early[7999] = 0;
    assert!(file_reply(Some(early)).ok().unwrap().is_binary);
}

#[test]
fn group_page_entries() {
    assert!(group_entry_kind(".meta", true, true) == GroupEntryKind::Hidden);
    assert!(group_entry_kind("p.git", true, false) == GroupEntryKind::Repository);
    assert!(group_entry_kind("p.git", false, true) == GroupEntryKind::Hidden);
    assert!(group_entry_kind("sub", true, true) == GroupEntryKind::Subgroup);
    assert!(group_entry_kind("sub", true, false) == GroupEntryKind::Hidden);
    let flags = vec![
        MemberFlag { user_id: 7, can_view_subgroups: true },
        MemberFlag { user_id: 7, can_view_subgroups: false },
    ];
    assert!(sees_subgroups(&Some(alice()), &Some((None, flags))));
    let flags = vec![MemberFlag { user_id: 7, can_view_subgroups: false }];
    assert!(!sees_subgroups(&Some(alice()), &Some((None, flags))));
    assert!(sees_subgroups(&Some(alice()), &Some((Some(7), vec![]))));
    assert!(sees_subgroups(&Some(admin()), &None));
    assert!(!sees_subgroups(&Some(alice()), &None));
    assert!(!sees_subgroups(&None, &Some((Some(7), vec![]))));
}

fn facts(size: u64) -> RepoFacts {
    RepoFacts { size, default_branch: Some("main".to_string()), last_commit_message: None, last_commit_date: None }
}

#[test]
fn group_page_sorted_and_summed() {
    let repos = vec![
        group_repo_info("alice", "zeta.git", facts(2048)),
        group_repo_info("alice", "Alpha.git", facts(1)),
        group_repo_info("alice", "beta.git", facts(1023)),
    ];
    assert_eq!(repos[0].name, "zeta");
    assert_eq!(repos[0].path, "alice/zeta.git");
    assert_eq!(repos[0].size_str, "2.00 KiB");
    let subs = vec![group_subgroup_info("alice", "b", 0), group_subgroup_info("alice", "a", 5)];
    assert_eq!(subs[1].size_str, "5 B");
    let d = group_detail("alice/team", repos, subs, None, None, vec![]);
    assert_eq!(d.name, "team");
    assert_eq!(d.path, "alice/team");
    assert_eq!(d.total_size, 3072);
    assert_eq!(d.total_size_str, "3.00 KiB");
    let names: Vec<&str> = d.repositories.iter().map(|r| r.name.as_str()).collect();
    assert_eq!(names, vec!["Alpha", "beta", "zeta"]);
    let subs: Vec<&str> = d.subgroups.iter().map(|g| g.name.as_str()).collect();
    assert_eq!(subs, vec!["a", "b"]);
}

#[test]
fn name_order_is_stable() {
    let names = vec!["b".to_string(), "a".to_string(), "b".to_string(), "A".to_string()];
    assert_eq!(order_by_name(&names), vec![3, 1, 0, 2]);
}

#[test]
fn directory_sizes() {
    let tree = vec![
        SizedNode { is_dir: false, len: Some(10), children: vec![] },
        SizedNode {
            is_dir: true,
            len: None,
            children: vec![
                SizedNode { is_dir: false, len: Some(5), children: vec![] },
                SizedNode { is_dir: false, len: None, children: vec![] },
                SizedNode { is_dir: true, len: Some(4096), children: vec![SizedNode { is_dir: false, len: Some(1), children: vec![] }] },
            ],
        },
    ];
    assert_eq!(dir_size(&tree), 16);
    assert_eq!(dir_size(&vec![]), 0);
}

fn user(id: i64, name: &str) -> User {
    User {
        id,
        username: name.to_string(),
        password_hash: String::new(),
        email: None,
        is_admin: false,
        display_name: Some(format!("{} D", name)),
        avatar_url: None,
        bio: None,
        location: None,
        website: None,
        repos_folder: None,
        created_at: String::new(),
        updated_at: String::new(),
    }
}

#[test]
fn member_lists() {
    let rows = vec![
        (GroupMember { id: 1, group_id: 3, user_id: 7, role: "member".to_string(), can_view_subgroups: true, created_at: "t1".to_string() }, Some(user(7, "alice"))),
        (GroupMember { id: 2, group_id: 3, user_id: 8, role: "member".to_string(), can_view_subgroups: false, created_at: "t2".to_string() }, None),
        (GroupMember { id: 3, group_id: 3, user_id: 9, role: "admin".to_string(), can_view_subgroups: false, created_at: "t3".to_string() }, Some(user(9, "carol"))),
    ];
    let ms = group_member_infos(&rows);
    assert_eq!(ms.len(), 2);
    assert_eq!((ms[0].user_id, ms[0].username.as_str(), ms[0].can_view_subgroups), (7, "alice", Some(true)));
    assert_eq!((ms[1].user_id, ms[1].role.as_str(), ms[1].created_at.as_str()), (9, "admin", "t3"));
    let rows = vec![(RepositoryMember { id: 1, repository_id: 2, user_id: 9, role: "reader".to_string(), created_at: "t".to_string() }, Some(user(9, "carol")))];
    let ms = repo_member_infos(&rows);
    assert_eq!((ms[0].username.as_str(), ms[0].role.as_str(), ms[0].can_view_subgroups), ("carol", "reader", None));
    let o = owner_info(user(7, "alice"));
    assert_eq!((o.user_id, o.username.as_str(), o.display_name.as_deref()), (7, "alice", Some("alice D")));
}
