use gitclub::auth::AuthUser;
use gitclub::db::{
    ancestor_paths, group_path_steps, group_record_plan, may_list_members, may_manage_members,
    member_role, repo_member_record_group, repo_record_group, sorted_unique_paths, AccessAnswer,
    AccessCheck, AccessQuery, GroupPathWalk, PathAnswer, PathStep,
};

fn strs(v: &[&str]) -> Vec<String> {
    v.iter().map(|s| s.to_string()).collect()
}

#[test]
fn accessible_paths_sorted_without_repeats() {
    let r = sorted_unique_paths(vec![strs(&["b/x", "a"]), strs(&["a", "c", "b"]), strs(&[])]);
    assert_eq!(r, strs(&["a", "b", "b/x", "c"]));
    assert!(sorted_unique_paths(vec![]).is_empty());
}

#[test]
fn group_steps_of_a_path() {
    let steps = group_path_steps("alice/team/sub");
    assert_eq!(
        steps,
        vec![
            ("alice".to_string(), "alice".to_string()),
            ("team".to_string(), "alice/team".to_string()),
            ("sub".to_string(), "alice/team/sub".to_string()),
        ]
    );
}

#[test]
fn ancestors_nearest_first() {
    assert_eq!(ancestor_paths("a/b/c.git"), strs(&["a/b", "a"]));
    assert!(ancestor_paths("a").is_empty());
}

#[test]
fn missing_records() {
    let p = group_record_plan("alice/team/sub");
    assert_eq!(p.name, "sub");
    assert_eq!(p.parent_path, Some("alice/team".to_string()));
    assert_eq!(p.owner_username, "alice");
    let p = group_record_plan("alice");
    assert_eq!((p.name.as_str(), p.parent_path, p.owner_username.as_str()), ("alice", None, "alice"));
    assert_eq!(repo_record_group("alice/team/p.git"), "alice/team");
    assert_eq!(repo_record_group("p.git"), "p.git");
    assert_eq!(repo_member_record_group("alice/p.git", "bob"), "alice");
    assert_eq!(repo_member_record_group("p.git", "bob"), "bob");
}

#[test]
fn member_permissions() {
    let u = AuthUser { user_id: 5, username: "u".to_string(), is_admin: false };
    assert!(may_list_members(&u, Some(5), &vec![]));
    assert!(may_list_members(&u, Some(1), &vec![3, 5]));
    assert!(!may_list_members(&u, None, &vec![3]));
    assert!(may_manage_members(&u, Some(5)));
    assert!(!may_manage_members(&u, Some(1)));
    let a = AuthUser { user_id: 9, username: "a".to_string(), is_admin: true };
    assert!(may_manage_members(&a, None));
    assert_eq!(member_role(&None, "member"), "member");
    assert_eq!(member_role(&Some("admin".to_string()), "reader"), "admin");
}

fn decided(q: &AccessQuery) -> Option<bool> {
    match q {
        AccessQuery::Decided(b) => Some(*b),
        _ => None,
    }
}

#[test]
fn access_by_group_owner() {
    let (mut c, q) = AccessCheck::new(5, "alice/team");
    assert!(matches!(q, AccessQuery::GroupByPath(ref p) if p == "alice/team"));
    let q = c.answer(AccessAnswer::Record(Some((10, Some(5)))));
    assert_eq!(decided(&q), Some(true));
}

#[test]
fn access_by_repository_member() {
    let (mut c, _) = AccessCheck::new(5, "alice/p.git");
    let q = c.answer(AccessAnswer::Record(None));
    assert!(matches!(q, AccessQuery::RepoByPath(ref p) if p == "alice/p.git"));
    let q = c.answer(AccessAnswer::Record(Some((3, Some(1)))));
    assert!(matches!(q, AccessQuery::RepoMembers(3)));
    let q = c.answer(AccessAnswer::Members(vec![2, 5]));
    assert_eq!(decided(&q), Some(true));
}

#[test]
fn access_through_enclosing_group() {
    let (mut c, _) = AccessCheck::new(5, "alice/team/p.git");
    let _ = c.answer(AccessAnswer::Record(None));
    let q = c.answer(AccessAnswer::Record(None));
    assert!(matches!(q, AccessQuery::GroupByPath(ref p) if p == "alice/team"));
    let q = c.answer(AccessAnswer::Record(Some((4, Some(1)))));
    assert!(matches!(q, AccessQuery::GroupMembers(4)));
    let q = c.answer(AccessAnswer::Members(vec![7]));
    assert!(matches!(q, AccessQuery::GroupByPath(ref p) if p == "alice"));
    let q = c.answer(AccessAnswer::Record(None));
    assert_eq!(decided(&q), Some(false));
}

#[test]
fn group_path_walk_records_missing_groups() {
    let (mut w, step) = GroupPathWalk::new("alice/team/sub");
    assert!(matches!(step, PathStep::Lookup(ref p) if p == "alice"));
    let step = w.answer(PathAnswer::Found(Some(1)));
    assert!(matches!(step, PathStep::Lookup(ref p) if p == "alice/team"));
    let step = w.answer(PathAnswer::Found(None));
    assert!(matches!(step, PathStep::Create { ref name, ref path, parent_id: Some(1) } if name == "team" && path == "alice/team"));
    let step = w.answer(PathAnswer::Created(5));
    assert!(matches!(step, PathStep::Lookup(ref p) if p == "alice/team/sub"));
    let step = w.answer(PathAnswer::Found(Some(9)));
    assert!(matches!(step, PathStep::Done(9)));
}
