//! The request and response values of the web API, and the decisions its
//! handlers make: where a new group or repository goes and whether the user
//! may put it there, who may open a repository or group, and what a group
//! page lists.
use vstd::prelude::*;
use crate::auth::AuthUser;
use crate::db::{User, GroupMember, RepositoryMember};
use crate::git_output::{opt_view, FileContent, file_content, looks_binary, utf8_lossy};
use crate::numfmt::{size_text, format_size};
use crate::paths::{join_path, last_segment, join_paths, last_segment_of};
use crate::scanner::{meta_name, git_suffix};
use crate::text::{
    has_prefix, has_suffix, split_on, views, seq_less, trim_end_matches_spec, chars_of,
    string_of, split_chars, ends_with, starts_with, chars_eq, chars_less, append_chars,
    append_str, trim_end_matches, slice_chars, lemma_split_nonempty, lemma_less_irreflexive,
    lemma_less_transitive,
};

verus! {

/// A refusal: an HTTP status and a plain-text message.
pub struct Reply {
    pub status: u16,
    pub message: String,
}

/// Body of `POST /api/groups`.
pub struct CreateGroupRequest {
    pub name: String,
    pub parent_path: Option<String>,
    pub description: Option<String>,
}

/// Body of `POST /api/repos`.
pub struct CreateRepoRequest {
    pub name: String,
    pub parent_path: Option<String>,
    pub description: Option<String>,
}

/// Query of `GET /api/repo/*path`.
pub struct RepoDetailQuery {
    pub path: Option<String>,
    pub branch: Option<String>,
}

/// Query of `GET /api/repo-file/*path`.
pub struct FileContentQuery {
    pub file: String,
    pub branch: Option<String>,
}

/// The owner of a group or repository.
pub struct OwnerInfo {
    pub user_id: i64,
    pub username: String,
    pub display_name: Option<String>,
    pub avatar_url: Option<String>,
}

/// A member of a group or repository.
pub struct MemberInfo {
    pub user_id: i64,
    pub username: String,
    pub role: String,
    pub created_at: String,
    pub can_view_subgroups: Option<bool>,
}

/// A repository listed on a group page.
pub struct GroupRepoInfo {
    pub name: String,
    pub path: String,
    pub size: u64,
    pub size_str: String,
    pub default_branch: Option<String>,
    pub last_commit_message: Option<String>,
    pub last_commit_date: Option<String>,
}

/// A subgroup listed on a group page.
pub struct GroupSubgroupInfo {
    pub name: String,
    pub path: String,
    pub size: u64,
    pub size_str: String,
}

/// A group page.
pub struct GroupDetail {
    pub name: String,
    pub path: String,
    pub total_size: u64,
    pub total_size_str: String,
    pub description: Option<String>,
    pub owner: Option<OwnerInfo>,
    pub members: Vec<MemberInfo>,
    pub repositories: Vec<GroupRepoInfo>,
    pub subgroups: Vec<GroupSubgroupInfo>,
}

/// Body of `PUT /api/user/profile`.
pub struct UpdateProfileRequest {
    pub display_name: Option<String>,
    pub email: Option<String>,
    pub bio: Option<String>,
    pub avatar_url: Option<String>,
}

/// Body of `POST /api/group-members`.
pub struct AddGroupMemberRequest {
    pub path: String,
    pub username: String,
    pub role: Option<String>,
    pub can_view_subgroups: Option<bool>,
}

/// Body of `POST /api/repo-members`.
pub struct AddRepoMemberRequest {
    pub path: String,
    pub username: String,
    pub role: Option<String>,
}

/// Body of `DELETE /api/group-members/remove`.
pub struct RemoveGroupMemberRequest {
    pub path: String,
    pub username: String,
}

/// Body of `DELETE /api/repo-members/remove`.
pub struct RemoveRepoMemberRequest {
    pub path: String,
    pub username: String,
}

/// Query of the member lists.
pub struct PathQuery {
    pub path: String,
}

/// Body of `PUT /api/group-members/permissions`.
pub struct UpdateGroupMemberPermissionsRequest {
    pub path: String,
    pub username: String,
    pub can_view_subgroups: bool,
}

/// Where a new group or repository goes.
pub open spec fn placed_under(parent: Option<String>, name: Seq<char>) -> Seq<char> {
    match parent {
        Some(p) => p@.push('/') + name,
        None => name,
    }
}

/// Some `/`-separated piece of `name` ends with `.git`.
pub open spec fn some_piece_is_repo(name: Seq<char>) -> bool {
    exists|i: int|
        0 <= i < split_on(name, '/').len() && has_suffix(
            #[trigger] split_on(name, '/')[i],
            git_suffix(),
        )
}

/// A piece of `name` other than (in value) its last ends with `.git`.
pub open spec fn inner_piece_is_repo(name: Seq<char>) -> bool {
    exists|i: int|
        0 <= i < split_on(name, '/').len() && has_suffix(
            #[trigger] split_on(name, '/')[i],
            git_suffix(),
        ) && split_on(name, '/')[i] != split_on(name, '/').last()
}

/// The user's own folder holds `path`.
pub open spec fn own_folder_holds(user: AuthUser, path: Seq<char>) -> bool {
    has_prefix(path, user.username@.push('/')) || path == user.username@
}

/// Where a new group goes, or why it may not be created: a group name with
/// a piece ending in `.git` is refused (400); someone other than an
/// administrator may only create groups inside their own folder (403).
pub open spec fn group_plan_spec(req: CreateGroupRequest, user: AuthUser) -> Result<Seq<char>, (u16, Seq<char>)> {
    if some_piece_is_repo(req.name@) {
        Err((400, "Group path cannot contain segments ending with .git. Use Repository type to create a git repository."@))
    } else {
        let path = placed_under(req.parent_path, req.name@);
        if !user.is_admin && !own_folder_holds(user, path) {
            Err((403, "You can only create groups in your own folder"@))
        } else {
            Ok(path)
        }
    }
}

/// The repository name of a requested name: the name itself when it ends
/// with `.git`, else the name with `.git` added.
pub open spec fn repo_name_of(name: Seq<char>) -> Seq<char> {
    if has_suffix(name, git_suffix()) {
        name
    } else {
        name + git_suffix()
    }
}

/// Where a new repository goes, as (repository name, path, path of the group
/// that records it), or why it may not be created.
pub open spec fn repo_plan_spec(req: CreateRepoRequest, user: AuthUser) -> Result<
    (Seq<char>, Seq<char>, Seq<char>),
    (u16, Seq<char>),
> {
    if inner_piece_is_repo(req.name@) {
        Err((400, "Repository path cannot contain .git in intermediate segments."@))
    } else {
        let repo_name = repo_name_of(req.name@);
        let path = placed_under(req.parent_path, repo_name);
        if !user.is_admin && !has_prefix(path, user.username@.push('/')) && path != user.username@.push(
            '/',
        ) + repo_name {
            Err((403, "You can only create repositories in your own folder"@))
        } else {
            let group = match req.parent_path {
                Some(p) => p@,
                None => user.username@,
            };
            Ok((repo_name, path, group))
        }
    }
}

/// A reply as a plain value.
pub open spec fn reply_view(r: Reply) -> (u16, Seq<char>) {
    (r.status, r.message@)
}

fn reply(status: u16, message: &str) -> (r: Reply)
    ensures
        reply_view(r) == (status, message@),
{
    Reply { status, message: String::from_str(message) }
}

fn placed(parent: &Option<String>, name: &Vec<char>) -> (r: Vec<char>)
    ensures
        r@ == placed_under(*parent, name@),
{
    match parent {
        Some(p) => {
            let mut v = chars_of(p.as_str());
            v.push('/');
            append_chars(&mut v, name);
            v
        },
        None => {
            let v = slice_chars(name, 0, name.len());
            assert(v@ =~= name@);
            v
        },
    }
}

fn own_folder_check(user: &AuthUser, path: &Vec<char>) -> (r: bool)
    ensures
        r == own_folder_holds(*user, path@),
{
    let name = chars_of(user.username.as_str());
    let mut dir = chars_of(user.username.as_str());
    dir.push('/');
    starts_with(path, &dir) || chars_eq(path, &name)
}

/// Where a new group goes (`POST /api/groups`).
pub fn plan_group(req: &CreateGroupRequest, user: &AuthUser) -> (r: Result<String, Reply>)
    ensures
        match r {
            Ok(p) => group_plan_spec(*req, *user) == Ok::<Seq<char>, (u16, Seq<char>)>(p@),
            Err(e) => group_plan_spec(*req, *user) == Err::<Seq<char>, (u16, Seq<char>)>(reply_view(e)),
        },
{
    let name = chars_of(req.name.as_str());
    let parts = split_chars(&name, '/');
    let git = chars_of(".git");
    assert(git@ == git_suffix()) by {
        reveal_strlit(".git");
    }
    let mut i: usize = 0;
    while i < parts.len()
        invariant
            i <= parts.len(),
            views(parts@) == split_on(req.name@, '/'),
            git@ == git_suffix(),
            forall|k: int| 0 <= k < i ==> !has_suffix(#[trigger] split_on(req.name@, '/')[k], git_suffix()),
        decreases parts.len() - i,
    {
        assert(views(parts@)[i as int] == parts@[i as int]@);
        if ends_with(&parts[i], &git) {
            assert(has_suffix(split_on(req.name@, '/')[i as int], git_suffix()));
            return Err(reply(400, "Group path cannot contain segments ending with .git. Use Repository type to create a git repository."));
        }
        i += 1;
    }
    let path = placed(&req.parent_path, &name);
    if !user.is_admin && !own_folder_check(user, &path) {
        return Err(reply(403, "You can only create groups in your own folder"));
    }
    Ok(string_of(&path))
}

/// A planned repository: its name, its path, and the group that records it.
pub struct RepoPlan {
    pub repo_name: String,
    pub path: String,
    pub group_path: String,
}

/// Where a new repository goes (`POST /api/repos`).
pub fn plan_repo(req: &CreateRepoRequest, user: &AuthUser) -> (r: Result<RepoPlan, Reply>)
    ensures
        match r {
            Ok(p) => repo_plan_spec(*req, *user) == Ok::<(Seq<char>, Seq<char>, Seq<char>), (u16, Seq<char>)>((p.repo_name@, p.path@, p.group_path@)),
            Err(e) => repo_plan_spec(*req, *user) == Err::<(Seq<char>, Seq<char>, Seq<char>), (u16, Seq<char>)>(reply_view(e)),
        },
{
    let name = chars_of(req.name.as_str());
    let parts = split_chars(&name, '/');
    proof {
        lemma_split_nonempty(name@, '/');
    }
    let last = &parts[parts.len() - 1];
    assert(views(parts@)[parts.len() - 1] == last@);
    let git = chars_of(".git");
    assert(git@ == git_suffix()) by {
        reveal_strlit(".git");
    }
    let mut i: usize = 0;
    while i < parts.len()
        invariant
            i <= parts.len(),
            parts.len() >= 1,
            views(parts@) == split_on(req.name@, '/'),
            last@ == split_on(req.name@, '/').last(),
            git@ == git_suffix(),
            forall|k: int|
                0 <= k < i ==> !(has_suffix(#[trigger] split_on(req.name@, '/')[k], git_suffix())
                    && split_on(req.name@, '/')[k] != split_on(req.name@, '/').last()),
        decreases parts.len() - i,
    {
        assert(views(parts@)[i as int] == parts@[i as int]@);
        if ends_with(&parts[i], &git) && !chars_eq(&parts[i], last) {
            assert(has_suffix(split_on(req.name@, '/')[i as int], git_suffix()));
            return Err(reply(400, "Repository path cannot contain .git in intermediate segments."));
        }
        i += 1;
    }
    let repo_name = if ends_with(&name, &git) {
        slice_chars(&name, 0, name.len())
    } else {
        let mut v = slice_chars(&name, 0, name.len());
        append_chars(&mut v, &git);
        v
    };
    assert(name@.subrange(0, name@.len() as int) =~= name@);
    let path = placed(&req.parent_path, &repo_name);
    if !user.is_admin {
        let mut dir = chars_of(user.username.as_str());
        dir.push('/');
        let mut own_repo = slice_chars(&dir, 0, dir.len());
        append_chars(&mut own_repo, &repo_name);
        assert(dir@.subrange(0, dir@.len() as int) =~= dir@);
        if !starts_with(&path, &dir) && !chars_eq(&path, &own_repo) {
            return Err(reply(403, "You can only create repositories in your own folder"));
        }
    }
    let group_path = match &req.parent_path {
        Some(p) => p.clone(),
        None => user.username.clone(),
    };
    Ok(RepoPlan { repo_name: string_of(&repo_name), path: string_of(&path), group_path })
}

/// The metadata directory of a new group: `.meta/.meta` inside it.
pub fn group_meta_dir(full_path: &str) -> (r: String)
    ensures
        r@ == join_path(full_path@, ".meta/.meta"@),
{
    join_paths(full_path, ".meta/.meta")
}

/// The metadata directory of a new repository: `.meta/<repo name>` inside
/// the parent group's directory (the root when there is no parent).
pub fn repo_meta_dir(root: &str, parent_path: &Option<String>, repo_name: &str) -> (r: String)
    ensures
        r@ == join_path(
            join_path(
                match parent_path {
                    Some(p) => join_path(root@, p@),
                    None => root@,
                },
                ".meta"@,
            ),
            repo_name@,
        ),
{
    let base = match parent_path {
        Some(p) => join_paths(root, p.as_str()),
        None => String::from_str(root),
    };
    let meta = join_paths(base.as_str(), ".meta");
    join_paths(meta.as_str(), repo_name)
}

/// Who may open a repository or read its files: an administrator; anyone
/// whose name starts the path, followed by `/` or not; or anyone the
/// database grants access. Nobody signed in is asked to sign in (401);
/// anyone else is refused (403).
pub open spec fn repo_access_spec(user: Option<AuthUser>, path: Seq<char>, db_access: bool) -> Option<(u16, Seq<char>)> {
    match user {
        None => Some((401, "Authentication required"@)),
        Some(u) => if u.is_admin || has_prefix(path, u.username@.push('/')) || has_prefix(
            path,
            u.username@,
        ) || db_access {
            None
        } else {
            Some((403, "Access denied"@))
        },
    }
}

/// Who may open a group page: as for repositories, except that the path
/// must be the user's folder or lie below it.
pub open spec fn group_access_spec(user: Option<AuthUser>, path: Seq<char>, db_access: bool) -> Option<(u16, Seq<char>)> {
    match user {
        None => Some((401, "Authentication required"@)),
        Some(u) => if u.is_admin || own_folder_holds(u, path) || db_access {
            None
        } else {
            Some((403, "Access denied"@))
        },
    }
}

/// Who is refused a group page or a repository. Nobody signed in is asked to
/// sign in (401). A signed-in administrator is never refused, and neither is
/// a user the database grants the path, nor one whose own folder (`name` or
/// `name/...`) holds it. Anyone else is refused with 403 `Access denied`:
/// for a group page, whenever the path is outside their folder; for a
/// repository, whenever the path does not start with their name.
pub proof fn law_access_refusals(u: AuthUser, path: Seq<char>, db_access: bool)
    ensures
        group_access_spec(None, path, db_access) == Some((401u16, "Authentication required"@)),
        repo_access_spec(None, path, db_access) == Some((401u16, "Authentication required"@)),
        u.is_admin ==> group_access_spec(Some(u), path, db_access) is None
            && repo_access_spec(Some(u), path, db_access) is None,
        db_access ==> group_access_spec(Some(u), path, db_access) is None
            && repo_access_spec(Some(u), path, db_access) is None,
        (path == u.username@ || has_prefix(path, u.username@ + "/"@)) ==> group_access_spec(
            Some(u),
            path,
            db_access,
        ) is None && repo_access_spec(Some(u), path, db_access) is None,
        !u.is_admin && !db_access && path != u.username@ && !has_prefix(path, u.username@ + "/"@)
            ==> group_access_spec(Some(u), path, db_access) == Some((403u16, "Access denied"@)),
        !u.is_admin && !db_access && !has_prefix(path, u.username@) ==> repo_access_spec(
            Some(u),
            path,
            db_access,
        ) == Some((403u16, "Access denied"@)),
{
    reveal_strlit("/");
    assert(u.username@ + "/"@ =~= u.username@.push('/'));
    if path == u.username@ {
        assert(path.subrange(0, u.username@.len() as int) =~= u.username@);
    }
    if has_prefix(path, u.username@.push('/')) {
        assert(u.username@.push('/').subrange(0, u.username@.len() as int) =~= u.username@);
        assert(path.subrange(0, u.username@.len() as int) =~= path.subrange(0, u.username@.len() + 1int).subrange(0, u.username@.len() as int));
        assert(has_prefix(path, u.username@));
    }
}

/// The refusal, if any, of a request for a repository or one of its files;
/// `db_access` is what the database says of the user and the path.
pub fn check_repo_access(user: &Option<AuthUser>, path: &str, db_access: bool) -> (r: Option<Reply>)
    ensures
        match r {
            Some(e) => repo_access_spec(*user, path@, db_access) == Some(reply_view(e)),
            None => repo_access_spec(*user, path@, db_access) is None,
        },
{
    match user {
        None => Some(reply(401, "Authentication required")),
        Some(u) => {
            let p = chars_of(path);
            let name = chars_of(u.username.as_str());
            let mut dir = chars_of(u.username.as_str());
            dir.push('/');
            if u.is_admin || starts_with(&p, &dir) || starts_with(&p, &name) || db_access {
                None
            } else {
                Some(reply(403, "Access denied"))
            }
        },
    }
}

/// The refusal, if any, of a request for a group page.
pub fn check_group_access(user: &Option<AuthUser>, path: &str, db_access: bool) -> (r: Option<Reply>)
    ensures
        match r {
            Some(e) => group_access_spec(*user, path@, db_access) == Some(reply_view(e)),
            None => group_access_spec(*user, path@, db_access) is None,
        },
{
    match user {
        None => Some(reply(401, "Authentication required")),
        Some(u) => {
            let p = chars_of(path);
            if u.is_admin || own_folder_check(u, &p) || db_access {
                None
            } else {
                Some(reply(403, "Access denied"))
            }
        },
    }
}

/// The branch a repository page shows: the one asked for, else the default.
pub fn chosen_branch(asked: Option<String>, default_branch: Option<String>) -> (r: Option<String>)
    ensures
        opt_view(r) == (match asked {
            Some(b) => Some(b@),
            None => opt_view(default_branch),
        }),
{
    match asked {
        Some(b) => Some(b),
        None => default_branch,
    }
}

/// The name a repository page shows: the last piece of the path with every
/// trailing `.git` removed.
pub open spec fn repo_display_name_spec(path: Seq<char>) -> Seq<char> {
    trim_end_matches_spec(last_segment(path), git_suffix())
}

/// The name a repository page shows.
pub fn repo_display_name(path: &str) -> (r: String)
    ensures
        r@ == repo_display_name_spec(path@),
{
    let last = last_segment_of(path);
    let l = chars_of(last.as_str());
    let git = chars_of(".git");
    assert(git@ == git_suffix()) by {
        reveal_strlit(".git");
    }
    string_of(&trim_end_matches(&l, &git))
}

/// What a directory entry is on a group page.
#[derive(PartialEq, Eq, Structural, Clone, Copy)]
pub enum GroupEntryKind {
    /// Not shown: the metadata directory, or not a directory.
    Hidden,
    /// A repository: a directory whose name ends with `.git`.
    Repository,
    /// A subgroup, shown only to those who may see subgroups.
    Subgroup,
}

/// The kind of an entry named `name` on a group page.
pub open spec fn group_entry_kind_spec(name: Seq<char>, is_dir: bool, can_view_subgroups: bool) -> GroupEntryKind {
    if name == meta_name() || !is_dir {
        GroupEntryKind::Hidden
    } else if has_suffix(name, git_suffix()) {
        GroupEntryKind::Repository
    } else if can_view_subgroups {
        GroupEntryKind::Subgroup
    } else {
        GroupEntryKind::Hidden
    }
}

/// The kind of an entry on a group page.
pub fn group_entry_kind(name: &str, is_dir: bool, can_view_subgroups: bool) -> (r: GroupEntryKind)
    ensures
        r == group_entry_kind_spec(name@, is_dir, can_view_subgroups),
{
    let n = chars_of(name);
    let meta = vec!['.', 'm', 'e', 't', 'a'];
    let git = vec!['.', 'g', 'i', 't'];
    assert(meta@ == meta_name());
    assert(git@ == git_suffix());
    if chars_eq(&n, &meta) || !is_dir {
        GroupEntryKind::Hidden
    } else if ends_with(&n, &git) {
        GroupEntryKind::Repository
    } else if can_view_subgroups {
        GroupEntryKind::Subgroup
    } else {
        GroupEntryKind::Hidden
    }
}

/// A member of a group as the membership list has it.
pub struct MemberFlag {
    pub user_id: i64,
    pub can_view_subgroups: bool,
}

/// Whether the user sees the subgroups of a group: administrators and the
/// owner do; a member does when the first membership row for them says so;
/// nobody else does. `group` is the owner and membership of the group when
/// the database knows it.
pub open spec fn sees_subgroups_spec(user: Option<AuthUser>, group: Option<(Option<i64>, Seq<MemberFlag>)>) -> bool {
    match user {
        None => false,
        Some(u) => if u.is_admin {
            true
        } else {
            match group {
                None => false,
                Some(g) => if g.0 == Some(u.user_id) {
                    true
                } else {
                    match first_member(g.1, u.user_id) {
                        Some(i) => g.1[i].can_view_subgroups,
                        None => false,
                    }
                },
            }
        },
    }
}

/// The first row for `user_id`.
pub open spec fn first_member(ms: Seq<MemberFlag>, user_id: i64) -> Option<int>
    decreases ms.len(),
{
    if ms.len() == 0 {
        None
    } else if ms[0].user_id == user_id {
        Some(0)
    } else {
        match first_member(ms.drop_first(), user_id) {
            Some(i) => Some(i + 1),
            None => None,
        }
    }
}

proof fn lemma_first_member_range(ms: Seq<MemberFlag>, user_id: i64)
    ensures
        first_member(ms, user_id) matches Some(i) ==> 0 <= i < ms.len(),
    decreases ms.len(),
{
    if ms.len() > 0 {
        lemma_first_member_range(ms.drop_first(), user_id);
    }
}

/// Whether the user sees the subgroups of a group.
pub fn sees_subgroups(user: &Option<AuthUser>, group: &Option<(Option<i64>, Vec<MemberFlag>)>) -> (r: bool)
    ensures
        r == sees_subgroups_spec(*user, match group {
            Some(g) => Some((g.0, g.1@)),
            None => None,
        }),
{
    match user {
        None => false,
        Some(u) => {
            if u.is_admin {
                true
            } else {
                match group {
                    None => false,
                    Some(g) => {
                        if g.0 == Some(u.user_id) {
                            true
                        } else {
                            let ms = &g.1;
                            let mut i: usize = 0;
                            assert(ms@.subrange(0, ms@.len() as int) =~= ms@);
                            while i < ms.len()
                                invariant
                                    i <= ms.len(),
                                    !u.is_admin,
                                    g.0 != Some(u.user_id),
                                    *user == Some(*u),
                                    *group == Some(*g),
                                    ms@ == g.1@,
                                    first_member(ms@, u.user_id) == match first_member(
                                        ms@.subrange(i as int, ms@.len() as int),
                                        u.user_id,
                                    ) {
                                        Some(k) => Some(k + i),
                                        None => None,
                                    },
                                decreases ms.len() - i,
                            {
                                let ghost rest = ms@.subrange(i as int, ms@.len() as int);
                                assert(rest[0] == ms@[i as int]);
                                if ms[i].user_id == u.user_id {
                                    assert(first_member(rest, u.user_id) == Some(0int));
                                    assert(first_member(ms@, u.user_id) == Some(i as int));
                                    return ms[i].can_view_subgroups;
                                }
                                assert(rest.drop_first() =~= ms@.subrange(i + 1, ms@.len() as int));
                                i += 1;
                            }
                            false
                        }
                    },
                }
            }
        },
    }
}

/// What was found about a repository directory on a group page: its size
/// on disk, default branch and last commit.
pub struct RepoFacts {
    pub size: u64,
    pub default_branch: Option<String>,
    pub last_commit_message: Option<String>,
    pub last_commit_date: Option<String>,
}

/// The listing entry of a repository directory named `dir_name` in group `group_path`.
pub fn group_repo_info(group_path: &str, dir_name: &str, facts: RepoFacts) -> (r: GroupRepoInfo)
    ensures
        r.name@ == trim_end_matches_spec(dir_name@, git_suffix()),
        r.path@ == group_path@.push('/') + dir_name@,
        r.size == facts.size,
        r.size_str@ == size_text(facts.size as nat),
        opt_view(r.default_branch) == opt_view(facts.default_branch),
        opt_view(r.last_commit_message) == opt_view(facts.last_commit_message),
        opt_view(r.last_commit_date) == opt_view(facts.last_commit_date),
{
    let n = chars_of(dir_name);
    let git = vec!['.', 'g', 'i', 't'];
    assert(git@ == git_suffix());
    let mut p = chars_of(group_path);
    p.push('/');
    append_str(&mut p, dir_name);
    GroupRepoInfo {
        name: string_of(&trim_end_matches(&n, &git)),
        path: string_of(&p),
        size: facts.size,
        size_str: format_size(facts.size),
        default_branch: facts.default_branch,
        last_commit_message: facts.last_commit_message,
        last_commit_date: facts.last_commit_date,
    }
}

/// The listing entry of a subgroup directory named `dir_name` in group `group_path`.
pub fn group_subgroup_info(group_path: &str, dir_name: &str, size: u64) -> (r: GroupSubgroupInfo)
    ensures
        r.name@ == dir_name@,
        r.path@ == group_path@.push('/') + dir_name@,
        r.size == size,
        r.size_str@ == size_text(size as nat),
{
    let mut p = chars_of(group_path);
    p.push('/');
    append_str(&mut p, dir_name);
    GroupSubgroupInfo {
        name: String::from_str(dir_name),
        path: string_of(&p),
        size,
        size_str: format_size(size),
    }
}

/// The stable order by name of `names`: positions, each name placed before
/// the first already-placed name it is less than.
pub open spec fn name_order(names: Seq<Seq<char>>) -> Seq<int>
    decreases names.len(),
{
    if names.len() == 0 {
        Seq::<int>::empty()
    } else {
        let r = name_order(names.drop_last());
        let k = names.len() - 1;
        r.insert(name_pos(names, r, names[k]), k)
    }
}

/// The first position in `order` of a name that `x` is less than.
pub open spec fn name_pos(names: Seq<Seq<char>>, order: Seq<int>, x: Seq<char>) -> int
    decreases order.len(),
{
    if order.len() == 0 {
        0
    } else if seq_less(x, names[order[0]]) {
        0
    } else {
        1 + name_pos(names, order.drop_first(), x)
    }
}

proof fn lemma_name_order_range(names: Seq<Seq<char>>)
    ensures
        name_order(names).len() == names.len(),
        forall|j: int| 0 <= j < names.len() ==> 0 <= #[trigger] name_order(names)[j] < names.len(),
    decreases names.len(),
{
    if names.len() > 0 {
        lemma_name_order_range(names.drop_last());
        let r = name_order(names.drop_last());
        lemma_name_pos_range(names, r, names[names.len() - 1]);
    }
}

proof fn lemma_name_pos_range(names: Seq<Seq<char>>, order: Seq<int>, x: Seq<char>)
    ensures
        0 <= name_pos(names, order, x) <= order.len(),
    decreases order.len(),
{
    if order.len() > 0 {
        lemma_name_pos_range(names, order.drop_first(), x);
    }
}

/// The positions of `names` in the stable order by name.
pub fn order_by_name(names: &Vec<String>) -> (r: Vec<usize>)
    ensures
        r@.map_values(|i: usize| i as int) == name_order(crate::text::string_views(names@)),
{
    let ghost ns = crate::text::string_views(names@);
    let mut order: Vec<usize> = Vec::new();
    let mut i: usize = 0;
    assert(ns.take(0) =~= Seq::<Seq<char>>::empty());
    assert(order@.map_values(|i: usize| i as int) =~= Seq::<int>::empty());
    while i < names.len()
        invariant
            i <= names.len(),
            ns == crate::text::string_views(names@),
            order@.map_values(|i: usize| i as int) == name_order(ns.take(i as int)),
            forall|j: int| 0 <= j < order.len() ==> order@[j] < i,
        decreases names.len() - i,
    {
        let ghost cur = order@.map_values(|i: usize| i as int);
        let ghost t = ns.take(i + 1);
        assert(t.drop_last() =~= ns.take(i as int));
        assert(t[i as int] == names@[i as int]@);
        let x = chars_of(names[i].as_str());
        let mut j: usize = 0;
        assert(cur.subrange(0, cur.len() as int) =~= cur);
        proof {
            // Positions already placed name the same strings in `t` as before.
            assert forall|q: int| 0 <= q < cur.len() implies t[#[trigger] cur[q]] == ns.take(i as int)[cur[q]] by {
                assert(order@[q] < i);
            }
        }
        while j < order.len() && !chars_less(&x, &chars_of(names[order[j]].as_str()))
            invariant
                j <= order.len(),
                i < names.len(),
                x@ == names@[i as int]@,
                ns == crate::text::string_views(names@),
                t == ns.take(i + 1),
                cur == order@.map_values(|i: usize| i as int),
                forall|q: int| 0 <= q < order.len() ==> order@[q] < i,
                name_pos(t, cur, t[i as int]) == j + name_pos(
                    t,
                    cur.subrange(j as int, cur.len() as int),
                    t[i as int],
                ),
            decreases order.len() - j,
        {
            let ghost rest = cur.subrange(j as int, cur.len() as int);
            assert(rest[0] == order@[j as int] as int);
            assert(t[rest[0]] == names@[order@[j as int] as int]@);
            assert(rest.drop_first() =~= cur.subrange(j + 1, cur.len() as int));
            j += 1;
        }
        proof {
            let rest = cur.subrange(j as int, cur.len() as int);
            if j < order.len() {
                assert(rest[0] == order@[j as int] as int);
                assert(t[rest[0]] == names@[order@[j as int] as int]@);
            }
            assert(name_pos(t, rest, t[i as int]) == 0);
            assert(name_order(ns.take(i as int)) == cur);
            lemma_name_pos_same(ns.take(i as int), t, cur, t[i as int]);
        }
        order.insert(j, i);
        assert(order@.map_values(|i: usize| i as int) =~= cur.insert(j as int, i as int));
        i += 1;
    }
    assert(ns.take(names.len() as int) =~= ns);
    order
}

proof fn lemma_name_pos_same(a: Seq<Seq<char>>, b: Seq<Seq<char>>, order: Seq<int>, x: Seq<char>)
    requires
        forall|q: int| 0 <= q < order.len() ==> 0 <= #[trigger] order[q] < a.len() && a.len() <= b.len() && b[order[q]] == a[order[q]],
    ensures
        name_pos(a, order, x) == name_pos(b, order, x),
    decreases order.len(),
{
    if order.len() > 0 {
        assert(b[order[0]] == a[order[0]]);
        lemma_name_pos_same(a, b, order.drop_first(), x);
    }
}

/// The plain value of a listed repository.
pub type GroupRepoView = (Seq<char>, Seq<char>, u64, Seq<char>, Option<Seq<char>>, Option<Seq<char>>, Option<Seq<char>>);

/// The plain value of a [`GroupRepoInfo`].
pub open spec fn group_repo_view(r: GroupRepoInfo) -> GroupRepoView {
    (r.name@, r.path@, r.size, r.size_str@, opt_view(r.default_branch), opt_view(r.last_commit_message), opt_view(r.last_commit_date))
}

/// The plain value of a [`GroupSubgroupInfo`].
pub open spec fn group_subgroup_view(g: GroupSubgroupInfo) -> (Seq<char>, Seq<char>, u64, Seq<char>) {
    (g.name@, g.path@, g.size, g.size_str@)
}

/// The total size of the listed repositories.
pub open spec fn total_size(rs: Seq<GroupRepoInfo>) -> nat
    decreases rs.len(),
{
    if rs.len() == 0 {
        0
    } else {
        total_size(rs.drop_last()) + rs.last().size as nat
    }
}

fn clone_opt(o: &Option<String>) -> (r: Option<String>)
    ensures
        opt_view(r) == opt_view(*o),
{
    match o {
        Some(s) => Some(s.clone()),
        None => None,
    }
}

/// A group page: the repositories and subgroups found in its directory
/// (each in the stable order of their names), the total size of its
/// repositories (subgroups are not counted), its name (the last piece of
/// the path), and what the database and metadata say of it.
pub fn group_detail(
    group_path: &str,
    repositories: Vec<GroupRepoInfo>,
    subgroups: Vec<GroupSubgroupInfo>,
    description: Option<String>,
    owner: Option<OwnerInfo>,
    members: Vec<MemberInfo>,
) -> (r: GroupDetail)
    requires
        total_size(repositories@) <= u64::MAX,
    ensures
        r.name@ == last_segment(group_path@),
        r.path@ == group_path@,
        r.total_size == total_size(repositories@),
        r.total_size_str@ == size_text(total_size(repositories@)),
        opt_view(r.description) == opt_view(description),
        r.owner == owner,
        r.members == members,
        r.repositories@.map_values(|x: GroupRepoInfo| group_repo_view(x)) == name_order(
            repositories@.map_values(|x: GroupRepoInfo| x.name@),
        ).map_values(|i: int| group_repo_view(repositories@[i])),
        r.subgroups@.map_values(|x: GroupSubgroupInfo| group_subgroup_view(x)) == name_order(
            subgroups@.map_values(|x: GroupSubgroupInfo| x.name@),
        ).map_values(|i: int| group_subgroup_view(subgroups@[i])),
{
    let mut total: u64 = 0;
    let mut i: usize = 0;
    while i < repositories.len()
        invariant
            i <= repositories.len(),
            total_size(repositories@) <= u64::MAX,
            total as nat == total_size(repositories@.take(i as int)),
        decreases repositories.len() - i,
    {
        assert(repositories@.take(i + 1).drop_last() =~= repositories@.take(i as int));
        proof {
            lemma_total_prefix(repositories@, (i + 1) as int);
        }
        total = total + repositories[i].size;
        i += 1;
    }
    assert(repositories@.take(repositories.len() as int) =~= repositories@);
    // Repositories in order of name.
    let mut rnames: Vec<String> = Vec::new();
    let mut k: usize = 0;
    while k < repositories.len()
        invariant
            k <= repositories.len(),
            rnames.len() == k,
            forall|q: int| 0 <= q < k ==> rnames@[q]@ == repositories@[q].name@,
        decreases repositories.len() - k,
    {
        rnames.push(repositories[k].name.clone());
        k += 1;
    }
    assert(crate::text::string_views(rnames@) =~= repositories@.map_values(|x: GroupRepoInfo| x.name@));
    let rorder = order_by_name(&rnames);
    proof {
        lemma_name_order_range(crate::text::string_views(rnames@));
    }
    let mut repos_sorted: Vec<GroupRepoInfo> = Vec::new();
    let ghost ro = name_order(repositories@.map_values(|x: GroupRepoInfo| x.name@));
    let mut k: usize = 0;
    while k < rorder.len()
        invariant
            k <= rorder.len(),
            rorder@.map_values(|i: usize| i as int) == ro,
            ro.len() == repositories.len(),
            forall|j: int| 0 <= j < ro.len() ==> 0 <= #[trigger] ro[j] < repositories.len(),
            repos_sorted@.map_values(|x: GroupRepoInfo| group_repo_view(x)) == ro.take(k as int).map_values(
                |i: int| group_repo_view(repositories@[i]),
            ),
        decreases rorder.len() - k,
    {
        let ghost before = repos_sorted@.map_values(|x: GroupRepoInfo| group_repo_view(x));
        assert(ro[k as int] == rorder@[k as int] as int);
        let src = &repositories[rorder[k]];
        let copy = GroupRepoInfo {
            name: src.name.clone(),
            path: src.path.clone(),
            size: src.size,
            size_str: src.size_str.clone(),
            default_branch: clone_opt(&src.default_branch),
            last_commit_message: clone_opt(&src.last_commit_message),
            last_commit_date: clone_opt(&src.last_commit_date),
        };
        assert(group_repo_view(copy) == group_repo_view(repositories@[ro[k as int]]));
        assert(ro.take(k + 1).map_values(|i: int| group_repo_view(repositories@[i])) =~= ro.take(k as int).map_values(|i: int| group_repo_view(repositories@[i])).push(group_repo_view(repositories@[ro[k as int]])));
        repos_sorted.push(copy);
        assert(repos_sorted@.map_values(|x: GroupRepoInfo| group_repo_view(x)) =~= before.push(group_repo_view(copy)));
        assert(repos_sorted@.map_values(|x: GroupRepoInfo| group_repo_view(x)) =~= ro.take(k + 1).map_values(
            |i: int| group_repo_view(repositories@[i]),
        ));
        k += 1;
    }
    assert(ro.take(ro.len() as int) =~= ro);
    // Subgroups in order of name.
    let mut snames: Vec<String> = Vec::new();
    let mut k: usize = 0;
    while k < subgroups.len()
        invariant
            k <= subgroups.len(),
            snames.len() == k,
            forall|q: int| 0 <= q < k ==> snames@[q]@ == subgroups@[q].name@,
        decreases subgroups.len() - k,
    {
        snames.push(subgroups[k].name.clone());
        k += 1;
    }
    assert(crate::text::string_views(snames@) =~= subgroups@.map_values(|x: GroupSubgroupInfo| x.name@));
    let sorder = order_by_name(&snames);
    proof {
        lemma_name_order_range(crate::text::string_views(snames@));
    }
    let ghost so = name_order(subgroups@.map_values(|x: GroupSubgroupInfo| x.name@));
    let mut subs_sorted: Vec<GroupSubgroupInfo> = Vec::new();
    let mut k: usize = 0;
    while k < sorder.len()
        invariant
            k <= sorder.len(),
            sorder@.map_values(|i: usize| i as int) == so,
            so.len() == subgroups.len(),
            forall|j: int| 0 <= j < so.len() ==> 0 <= #[trigger] so[j] < subgroups.len(),
            subs_sorted@.map_values(|x: GroupSubgroupInfo| group_subgroup_view(x)) == so.take(k as int).map_values(
                |i: int| group_subgroup_view(subgroups@[i]),
            ),
        decreases sorder.len() - k,
    {
        assert(so[k as int] == sorder@[k as int] as int);
        let src = &subgroups[sorder[k]];
        let copy = GroupSubgroupInfo {
            name: src.name.clone(),
            path: src.path.clone(),
            size: src.size,
            size_str: src.size_str.clone(),
        };
        assert(group_subgroup_view(copy) == group_subgroup_view(subgroups@[so[k as int]]));
        assert(so.take(k + 1).map_values(|i: int| group_subgroup_view(subgroups@[i])) =~= so.take(k as int).map_values(|i: int| group_subgroup_view(subgroups@[i])).push(group_subgroup_view(subgroups@[so[k as int]])));
        let ghost before = subs_sorted@.map_values(|x: GroupSubgroupInfo| group_subgroup_view(x));
        subs_sorted.push(copy);
        assert(subs_sorted@.map_values(|x: GroupSubgroupInfo| group_subgroup_view(x)) =~= before.push(group_subgroup_view(copy)));
        assert(subs_sorted@.map_values(|x: GroupSubgroupInfo| group_subgroup_view(x)) =~= so.take(k + 1).map_values(
            |i: int| group_subgroup_view(subgroups@[i]),
        ));
        k += 1;
    }
    assert(so.take(so.len() as int) =~= so);
    GroupDetail {
        name: last_segment_of(group_path),
        path: String::from_str(group_path),
        total_size: total,
        total_size_str: format_size(total),
        description,
        owner,
        members,
        repositories: repos_sorted,
        subgroups: subs_sorted,
    }
}

proof fn lemma_total_prefix(rs: Seq<GroupRepoInfo>, n: int)
    requires
        0 <= n <= rs.len(),
    ensures
        total_size(rs.take(n)) <= total_size(rs),
    decreases rs.len(),
{
    if n < rs.len() {
        assert(rs.drop_last().take(n) =~= rs.take(n));
        lemma_total_prefix(rs.drop_last(), n);
    } else {
        assert(rs.take(n) =~= rs);
    }
}

/// An entry of a directory listing, for measuring the space it takes.
pub struct SizedNode {
    /// Whether the entry is a directory (following symbolic links).
    pub is_dir: bool,
    /// The length of a file, or `None` when its metadata could not be read.
    pub len: Option<u64>,
    /// The listing of a directory (empty when it could not be read).
    pub children: Vec<SizedNode>,
}

/// The space one entry takes: a file its length (nothing when unknown), a
/// directory the space of what it holds.
pub open spec fn node_size(n: SizedNode) -> nat
    decreases n,
{
    if n.is_dir {
        listing_size_upto(n.children@, n.children@.len() as int)
    } else {
        match n.len {
            Some(l) => l as nat,
            None => 0,
        }
    }
}

/// The space taken by the first `k` entries of a listing.
pub open spec fn listing_size_upto(nodes: Seq<SizedNode>, k: int) -> nat
    decreases nodes, k,
{
    if k <= 0 || k > nodes.len() {
        0
    } else {
        proof {
            assert(decreases_to!(nodes => nodes[k - 1]));
        }
        listing_size_upto(nodes, k - 1) + node_size(nodes[k - 1])
    }
}

/// The space taken by everything in a listing, recursively.
pub open spec fn listing_size(nodes: Seq<SizedNode>) -> nat {
    listing_size_upto(nodes, nodes.len() as int)
}

proof fn lemma_size_upto_mono(nodes: Seq<SizedNode>, j: int, k: int)
    requires
        0 <= j <= k <= nodes.len(),
    ensures
        listing_size_upto(nodes, j) <= listing_size_upto(nodes, k),
    decreases k - j,
{
    if j < k {
        lemma_size_upto_mono(nodes, j, k - 1);
    }
}

/// The space a directory takes on disk: the lengths of all files under
/// it, at any depth.
pub fn dir_size(nodes: &Vec<SizedNode>) -> (r: u64)
    requires
        listing_size(nodes@) <= u64::MAX,
    ensures
        r == listing_size(nodes@),
    decreases nodes@,
{
    let mut total: u64 = 0;
    let mut i: usize = 0;
    while i < nodes.len()
        invariant
            i <= nodes.len(),
            listing_size(nodes@) <= u64::MAX,
            total as nat == listing_size_upto(nodes@, i as int),
        decreases nodes.len() - i,
    {
        proof {
            lemma_size_upto_mono(nodes@, i + 1, nodes.len() as int);
        }
        let n = &nodes[i];
        assert(listing_size_upto(nodes@, i + 1) == total + node_size(nodes@[i as int]));
        if n.is_dir {
            assert(decreases_to!(nodes@ => nodes@[i as int]));
            assert(decreases_to!(nodes@[i as int] => nodes@[i as int].children));
            assert(decreases_to!(nodes@[i as int].children => nodes@[i as int].children@));
            let inner = dir_size(&n.children);
            total = total + inner;
        } else {
            match n.len {
                Some(l) => {
                    total = total + l;
                },
                None => {},
            }
        }
        i += 1;
    }
    total
}

/// The space a directory takes, or `None` when it does not fit in 64 bits.
pub fn checked_dir_size(nodes: &Vec<SizedNode>) -> (r: Option<u64>)
    ensures
        listing_size(nodes@) <= u64::MAX ==> r == Some(listing_size(nodes@) as u64),
        listing_size(nodes@) > u64::MAX ==> r is None,
    decreases nodes@,
{
    let mut total: u64 = 0;
    let mut i: usize = 0;
    while i < nodes.len()
        invariant
            i <= nodes.len(),
            total as nat == listing_size_upto(nodes@, i as int),
        decreases nodes.len() - i,
    {
        proof {
            lemma_size_upto_mono(nodes@, i + 1, nodes.len() as int);
        }
        let n = &nodes[i];
        assert(listing_size_upto(nodes@, i + 1) == total + node_size(nodes@[i as int]));
        let item: u64 = if n.is_dir {
            assert(decreases_to!(nodes@ => nodes@[i as int]));
            assert(decreases_to!(nodes@[i as int] => nodes@[i as int].children));
            assert(decreases_to!(nodes@[i as int].children => nodes@[i as int].children@));
            match checked_dir_size(&n.children) {
                Some(s) => s,
                None => {
                    return None;
                },
            }
        } else {
            match n.len {
                Some(l) => l,
                None => 0,
            }
        };
        match total.checked_add(item) {
            Some(t) => {
                total = t;
            },
            None => {
                return None;
            },
        }
        i += 1;
    }
    Some(total)
}

/// The total size of the listed repositories, or `None` when it does not
/// fit in 64 bits.
pub fn checked_total_size(repositories: &Vec<GroupRepoInfo>) -> (r: Option<u64>)
    ensures
        total_size(repositories@) <= u64::MAX ==> r == Some(total_size(repositories@) as u64),
        total_size(repositories@) > u64::MAX ==> r is None,
{
    let mut total: u64 = 0;
    let mut i: usize = 0;
    while i < repositories.len()
        invariant
            i <= repositories.len(),
            total as nat == total_size(repositories@.take(i as int)),
        decreases repositories.len() - i,
    {
        assert(repositories@.take(i + 1).drop_last() =~= repositories@.take(i as int));
        proof {
            lemma_total_prefix(repositories@, (i + 1) as int);
        }
        match total.checked_add(repositories[i].size) {
            Some(t) => {
                total = t;
            },
            None => {
                return None;
            },
        }
        i += 1;
    }
    assert(repositories@.take(repositories.len() as int) =~= repositories@);
    Some(total)
}

/// The owner shown for a group or repository: the owner's account.
pub fn owner_info(u: User) -> (r: OwnerInfo)
    ensures
        r.user_id == u.id,
        r.username@ == u.username@,
        opt_view(r.display_name) == opt_view(u.display_name),
        opt_view(r.avatar_url) == opt_view(u.avatar_url),
{
    OwnerInfo { user_id: u.id, username: u.username, display_name: u.display_name, avatar_url: u.avatar_url }
}

/// A member as plain values: user id, user name, role, date added, and
/// whether the member sees subgroups (groups only).
pub type MemberView = (i64, Seq<char>, Seq<char>, Seq<char>, Option<bool>);

/// The plain value of a [`MemberInfo`].
pub open spec fn member_view(m: MemberInfo) -> MemberView {
    (m.user_id, m.username@, m.role@, m.created_at@, m.can_view_subgroups)
}

/// The members listed for a group: in order, each membership whose user
/// was found, with the user's name and the membership's flag.
pub open spec fn group_members_spec(rows: Seq<(GroupMember, Option<User>)>) -> Seq<MemberView>
    decreases rows.len(),
{
    if rows.len() == 0 {
        Seq::empty()
    } else {
        let prev = group_members_spec(rows.drop_last());
        let (m, u) = rows.last();
        match u {
            Some(u) => prev.push((m.user_id, u.username@, m.role@, m.created_at@, Some(m.can_view_subgroups))),
            None => prev,
        }
    }
}

/// The members listed for a repository: in order, each membership whose
/// user was found, with the user's name.
pub open spec fn repo_members_spec(rows: Seq<(RepositoryMember, Option<User>)>) -> Seq<MemberView>
    decreases rows.len(),
{
    if rows.len() == 0 {
        Seq::empty()
    } else {
        let prev = repo_members_spec(rows.drop_last());
        let (m, u) = rows.last();
        match u {
            Some(u) => prev.push((m.user_id, u.username@, m.role@, m.created_at@, None)),
            None => prev,
        }
    }
}

/// The member list of a group, from its memberships each with the account
/// found for it (`None` when there is none).
pub fn group_member_infos(rows: &Vec<(GroupMember, Option<User>)>) -> (r: Vec<MemberInfo>)
    ensures
        r@.map_values(|m: MemberInfo| member_view(m)) == group_members_spec(rows@),
{
    let mut r: Vec<MemberInfo> = Vec::new();
    let mut i: usize = 0;
    while i < rows.len()
        invariant
            i <= rows.len(),
            r@.map_values(|m: MemberInfo| member_view(m)) == group_members_spec(rows@.take(i as int)),
        decreases rows.len() - i,
    {
        let ghost before = r@.map_values(|m: MemberInfo| member_view(m));
        assert(rows@.take(i + 1).drop_last() =~= rows@.take(i as int));
        assert(rows@.take(i + 1).last() == rows@[i as int]);
        let m = &rows[i].0;
        match &rows[i].1 {
            Some(u) => {
                let info = MemberInfo {
                    user_id: m.user_id,
                    username: u.username.clone(),
                    role: m.role.clone(),
                    created_at: m.created_at.clone(),
                    can_view_subgroups: Some(m.can_view_subgroups),
                };
                r.push(info);
                assert(r@.map_values(|m: MemberInfo| member_view(m)) =~= before.push(member_view(info)));
            },
            None => {},
        }
        i += 1;
    }
    assert(rows@.take(rows.len() as int) =~= rows@);
    r
}

/// The member list of a repository, from its memberships each with the
/// account found for it (`None` when there is none).
pub fn repo_member_infos(rows: &Vec<(RepositoryMember, Option<User>)>) -> (r: Vec<MemberInfo>)
    ensures
        r@.map_values(|m: MemberInfo| member_view(m)) == repo_members_spec(rows@),
{
    let mut r: Vec<MemberInfo> = Vec::new();
    let mut i: usize = 0;
    while i < rows.len()
        invariant
            i <= rows.len(),
            r@.map_values(|m: MemberInfo| member_view(m)) == repo_members_spec(rows@.take(i as int)),
        decreases rows.len() - i,
    {
        let ghost before = r@.map_values(|m: MemberInfo| member_view(m));
        assert(rows@.take(i + 1).drop_last() =~= rows@.take(i as int));
        assert(rows@.take(i + 1).last() == rows@[i as int]);
        let m = &rows[i].0;
        match &rows[i].1 {
            Some(u) => {
                let info = MemberInfo {
                    user_id: m.user_id,
                    username: u.username.clone(),
                    role: m.role.clone(),
                    created_at: m.created_at.clone(),
                    can_view_subgroups: None,
                };
                r.push(info);
                assert(r@.map_values(|m: MemberInfo| member_view(m)) =~= before.push(member_view(info)));
            },
            None => {},
        }
        i += 1;
    }
    assert(rows@.take(rows.len() as int) =~= rows@);
    r
}

/// What a repository page shows, beyond the repository itself: the branch
/// (the one asked for, else the default), the directory listed (the one
/// asked for, else the top), and whether the README is read (only at the
/// top, and only when there is a branch).
pub struct RepoPagePlan {
    pub branch: Option<String>,
    pub file_path: String,
    pub list_files: bool,
    pub read_readme: bool,
}

/// The plan of a repository page for `query`, given the default branch.
pub fn repo_page_plan(query: RepoDetailQuery, default_branch: Option<String>) -> (r: RepoPagePlan)
    ensures
        opt_view(r.branch) == (match query.branch {
            Some(b) => Some(b@),
            None => opt_view(default_branch),
        }),
        r.file_path@ == (match query.path {
            Some(p) => p@,
            None => Seq::<char>::empty(),
        }),
        r.list_files == r.branch is Some,
        r.read_readme == (r.branch is Some && r.file_path@.len() == 0),
{
    let branch = chosen_branch(query.branch, default_branch);
    let file_path = match query.path {
        Some(p) => p,
        None => String::new(),
    };
    let list_files = branch.is_some();
    let read_readme = branch.is_some() && file_path.as_str().is_empty();
    RepoPagePlan { branch, file_path, list_files, read_readme }
}

/// The object `git show` prints for a file request: `branch:file`, with
/// the branch asked for, else the default branch; 400 when there is neither.
pub fn show_ref(query: &FileContentQuery, default_branch: Option<String>) -> (r: Result<String, Reply>)
    ensures
        match (query.branch, default_branch) {
            (Some(b), _) => r is Ok && r->Ok_0@ == b@.push(':') + query.file@,
            (None, Some(b)) => r is Ok && r->Ok_0@ == b@.push(':') + query.file@,
            (None, None) => r is Err && reply_view(r->Err_0) == (400u16, "No branch specified and no default branch found"@),
        },
{
    let branch = match &query.branch {
        Some(b) => Some(b.clone()),
        None => default_branch,
    };
    match branch {
        Some(b) => {
            let mut v = chars_of(b.as_str());
            v.push(':');
            append_str(&mut v, query.file.as_str());
            Ok(string_of(&v))
        },
        None => Err(reply(400, "No branch specified and no default branch found")),
    }
}

/// The answer to a file request once `git show` ran: the file (text, or
/// marked binary) when it succeeded with output `stdout`, else 404.
/// `shown` is whether the command ran and succeeded, with its output.
pub fn file_reply(shown: Option<Vec<u8>>) -> (r: Result<FileContent, Reply>)
    ensures
        match shown {
            Some(bytes) => r is Ok && {
                let f = r->Ok_0;
                &&& f.is_binary == looks_binary(bytes@)
                &&& f.size == bytes.len()
                &&& f.is_binary ==> f.content@ == "[Binary file]"@
                &&& !f.is_binary ==> f.content@ == utf8_lossy(bytes@)
            },
            None => r is Err && reply_view(r->Err_0) == (404u16, "File not found"@),
        },
{
    match shown {
        Some(bytes) => Ok(file_content(&bytes)),
        None => Err(reply(404, "File not found")),
    }
}

/// The names in the order `order` gives never decrease.
pub open spec fn ordered_by_name(names: Seq<Seq<char>>, order: Seq<int>) -> bool {
    forall|i: int, j: int|
        0 <= i < j < order.len() ==> !seq_less(names[#[trigger] order[j]], names[#[trigger] order[i]])
}

proof fn lemma_name_pos(names: Seq<Seq<char>>, order: Seq<int>, x: Seq<char>)
    ensures
        0 <= name_pos(names, order, x) <= order.len(),
        forall|k: int| 0 <= k < name_pos(names, order, x) ==> !seq_less(x, names[#[trigger] order[k]]),
        name_pos(names, order, x) < order.len() ==> seq_less(x, names[order[name_pos(names, order, x)]]),
    decreases order.len(),
{
    lemma_name_pos_range(names, order, x);
    if order.len() > 0 && !seq_less(x, names[order[0]]) {
        lemma_name_pos(names, order.drop_first(), x);
        let q = name_pos(names, order.drop_first(), x);
        if q < order.drop_first().len() {
            assert(order[q + 1] == order.drop_first()[q]);
        }
        assert forall|k: int| 0 <= k < name_pos(names, order, x) implies !seq_less(x, names[#[trigger] order[k]]) by {
            if k > 0 {
                assert(order[k] == order.drop_first()[k - 1]);
            }
        }
    }
}

/// A group page lists its repositories and subgroups in the order of their
/// names, each entry exactly once: the order is a rearrangement of the
/// positions in which no name comes after a greater one.
pub proof fn law_group_listing_by_name(names: Seq<Seq<char>>)
    ensures
        name_order(names).len() == names.len(),
        forall|k: int| 0 <= k < names.len() ==> name_order(names).contains(k),
        ordered_by_name(names, name_order(names)),
    decreases names.len(),
{
    lemma_name_order_range(names);
    if names.len() > 0 {
        let n = names.len() - 1;
        let prev = names.drop_last();
        law_group_listing_by_name(prev);
        lemma_name_order_range(prev);
        let r = name_order(prev);
        let x = names[n];
        let p = name_pos(names, r, x);
        lemma_name_pos_range(names, r, x);
        lemma_name_pos(names, r, x);
        let t = r.insert(p, n);
        assert(name_order(names) == t);
        assert forall|k: int| 0 <= k < r.len() implies names[#[trigger] r[k]] == prev[r[k]] by {}
        assert forall|k: int| 0 <= k < names.len() implies t.contains(k) by {
            if k == n {
                assert(t[p] == n);
            } else {
                assert(r.contains(k));
                let q = choose|q: int| 0 <= q < r.len() && r[q] == k;
                if q < p {
                    assert(t[q] == k);
                } else {
                    assert(t[q + 1] == k);
                }
            }
        }
        assert forall|i: int, j: int| 0 <= i < j < t.len() implies !seq_less(names[#[trigger] t[j]], names[#[trigger] t[i]]) by {
            if j < p {
                assert(t[i] == r[i] && t[j] == r[j]);
                assert(!seq_less(prev[r[j]], prev[r[i]]));
            } else if j == p {
                assert(t[j] == n && t[i] == r[i]);
            } else if i == p {
                assert(t[i] == n && t[j] == r[j - 1]);
                if seq_less(names[r[j - 1]], x) {
                    lemma_less_transitive(names[r[j - 1]], x, names[r[p]]);
                    if j - 1 == p {
                        lemma_less_irreflexive(names[r[p]]);
                    } else {
                        assert(!seq_less(prev[r[j - 1]], prev[r[p]]));
                    }
                }
            } else if i < p {
                assert(t[i] == r[i] && t[j] == r[j - 1]);
                assert(!seq_less(prev[r[j - 1]], prev[r[i]]));
            } else {
                assert(t[i] == r[i - 1] && t[j] == r[j - 1]);
                assert(!seq_less(prev[r[j - 1]], prev[r[i - 1]]));
            }
        }
    }
}

} // verus!
