//! The records of the database and the decisions made around its queries:
//! the sorted set of paths a user can reach, the groups a path needs, how
//! a missing record is filled in, and the path access check.
use vstd::prelude::*;
use crate::auth::AuthUser;
use crate::paths::{first_segment, last_segment, parent_segments, segments, first_segment_of, last_segment_of, parent_segments_of};
use crate::text::{
    seq_less, split_on, join_with, views, string_views, chars_of, chars_less, string_of, join_prefix,
    lemma_less_transitive, lemma_less_total, lemma_split_nonempty, lemma_join_split, lemma_split_pieces_free,
};

verus! {

/// A user account.
pub struct User {
    pub id: i64,
    pub username: String,
    pub password_hash: String,
    pub email: Option<String>,
    pub is_admin: bool,
    pub display_name: Option<String>,
    pub avatar_url: Option<String>,
    pub bio: Option<String>,
    pub location: Option<String>,
    pub website: Option<String>,
    pub repos_folder: Option<String>,
    pub created_at: String,
    pub updated_at: String,
}

/// A group (a directory of repositories).
pub struct Group {
    pub id: i64,
    pub name: String,
    pub path: String,
    pub parent_id: Option<i64>,
    pub description: Option<String>,
    pub owner_id: Option<i64>,
    pub created_at: String,
    pub updated_at: String,
}

/// A repository.
pub struct Repository {
    pub id: i64,
    pub name: String,
    pub path: String,
    pub group_id: i64,
    pub description: Option<String>,
    pub owner_id: Option<i64>,
    pub created_at: String,
    pub updated_at: String,
}

/// A membership of a user in a group.
pub struct GroupMember {
    pub id: i64,
    pub group_id: i64,
    pub user_id: i64,
    pub role: String,
    pub can_view_subgroups: bool,
    pub created_at: String,
}

/// A membership of a user in a repository.
pub struct RepositoryMember {
    pub id: i64,
    pub repository_id: i64,
    pub user_id: i64,
    pub role: String,
    pub created_at: String,
}

/// Strictly increasing in the string order (so without repeats).
pub open spec fn strictly_sorted(s: Seq<Seq<char>>) -> bool {
    forall|i: int, j: int| 0 <= i < j < s.len() ==> seq_less(#[trigger] s[i], #[trigger] s[j])
}

/// All strings of all lists.
pub open spec fn in_some_list(lists: Seq<Seq<Seq<char>>>, s: Seq<char>) -> bool {
    exists|i: int| 0 <= i < lists.len() && (#[trigger] lists[i]).contains(s)
}

fn insert_unique(r: &mut Vec<String>, x: String)
    requires
        strictly_sorted(string_views(old(r)@)),
    ensures
        strictly_sorted(string_views(final(r)@)),
        forall|s: Seq<char>|
            string_views(final(r)@).contains(s) <==> (string_views(old(r)@).contains(s) || s == x@),
{
    let ghost old_v = string_views(r@);
    let xc = chars_of(x.as_str());
    let mut j: usize = 0;
    while j < r.len() && chars_less(&chars_of(r[j].as_str()), &xc)
        invariant
            j <= r.len(),
            xc@ == x@,
            old_v == string_views(r@),
            forall|k: int| 0 <= k < j ==> seq_less(#[trigger] old_v[k], x@),
        decreases r.len() - j,
    {
        j += 1;
    }
    if j < r.len() && r[j] == x {
        assert(old_v[j as int] == x@);
        return;
    }
    proof {
        if j < r.len() {
            assert(old_v[j as int] != x@);
            assert(!seq_less(old_v[j as int], x@));
            lemma_less_total(old_v[j as int], x@);
        }
    }
    r.insert(j, x);
    proof {
        let nv = string_views(r@);
        assert(nv =~= old_v.insert(j as int, xc@));
        assert forall|a: int, b: int| 0 <= a < b < nv.len() implies seq_less(#[trigger] nv[a], #[trigger] nv[b]) by {
            if b < j {
                assert(nv[a] == old_v[a] && nv[b] == old_v[b]);
            } else if b == j {
                assert(nv[a] == old_v[a]);
            } else if a < j {
                assert(nv[a] == old_v[a] && nv[b] == old_v[b - 1]);
                assert(seq_less(old_v[a], xc@));
                assert(seq_less(xc@, old_v[j as int]));
                if b - 1 > j {
                    lemma_less_transitive(xc@, old_v[j as int], old_v[b - 1]);
                }
                lemma_less_transitive(old_v[a], xc@, old_v[b - 1]);
            } else if a == j {
                assert(nv[b] == old_v[b - 1]);
                if b - 1 > j {
                    lemma_less_transitive(xc@, old_v[j as int], old_v[b - 1]);
                }
            } else {
                assert(nv[a] == old_v[a - 1] && nv[b] == old_v[b - 1]);
            }
        }
        assert forall|s: Seq<char>| nv.contains(s) <==> (old_v.contains(s) || s == x@) by {
            if nv.contains(s) {
                let k = choose|k: int| 0 <= k < nv.len() && nv[k] == s;
                if k < j {
                    assert(old_v[k] == s);
                } else if k > j {
                    assert(old_v[k - 1] == s);
                }
            }
            if old_v.contains(s) {
                let k = choose|k: int| 0 <= k < old_v.len() && old_v[k] == s;
                if k < j {
                    assert(nv[k] == s);
                } else {
                    assert(nv[k + 1] == s);
                }
            }
            if s == x@ {
                assert(nv[j as int] == s);
            }
        }
    }
}

/// All paths of all lists, sorted and without repeats (as `sort` and
/// `dedup` leave them).
pub fn sorted_unique_paths(lists: Vec<Vec<String>>) -> (r: Vec<String>)
    ensures
        strictly_sorted(string_views(r@)),
        forall|s: Seq<char>|
            string_views(r@).contains(s) <==> in_some_list(
                lists@.map_values(|l: Vec<String>| string_views(l@)),
                s,
            ),
{
    let ghost ls = lists@.map_values(|l: Vec<String>| string_views(l@));
    let mut r: Vec<String> = Vec::new();
    let mut i: usize = 0;
    while i < lists.len()
        invariant
            i <= lists.len(),
            ls == lists@.map_values(|l: Vec<String>| string_views(l@)),
            strictly_sorted(string_views(r@)),
            forall|s: Seq<char>|
                string_views(r@).contains(s) <==> in_some_list(ls.take(i as int), s),
        decreases lists.len() - i,
    {
        let list = &lists[i];
        let mut k: usize = 0;
        while k < list.len()
            invariant
                k <= list.len(),
                i < lists.len(),
                *list == lists@[i as int],
                ls == lists@.map_values(|l: Vec<String>| string_views(l@)),
                strictly_sorted(string_views(r@)),
                forall|s: Seq<char>|
                    string_views(r@).contains(s) <==> (in_some_list(ls.take(i as int), s)
                        || string_views(list@).take(k as int).contains(s)),
            decreases list.len() - k,
        {
            let ghost before = string_views(r@);
            insert_unique(&mut r, list[k].clone());
            proof {
                let t = string_views(list@).take(k + 1);
                assert(t =~= string_views(list@).take(k as int).push(list@[k as int]@));
                assert forall|s: Seq<char>| string_views(r@).contains(s) <==> (in_some_list(ls.take(i as int), s) || t.contains(s)) by {
                    if t.contains(s) && s != list@[k as int]@ {
                        let q = choose|q: int| 0 <= q < t.len() && t[q] == s;
                        assert(string_views(list@).take(k as int)[q] == s);
                    }
                    if string_views(list@).take(k as int).contains(s) {
                        let q = choose|q: int| 0 <= q < k && string_views(list@).take(k as int)[q] == s;
                        assert(t[q] == s);
                    }
                    if s == list@[k as int]@ {
                        assert(t[k as int] == s);
                    }
                }
            }
            k += 1;
        }
        proof {
            assert(string_views(list@).take(list.len() as int) =~= string_views(list@));
            assert(ls[i as int] == string_views(list@));
            assert forall|s: Seq<char>| string_views(r@).contains(s) <==> in_some_list(ls.take(i + 1), s) by {
                if in_some_list(ls.take(i + 1), s) {
                    let q = choose|q: int| 0 <= q < i + 1 && (#[trigger] ls.take(i + 1)[q]).contains(s);
                    if q < i {
                        assert(ls.take(i as int)[q] == ls.take(i + 1)[q]);
                    }
                }
                if in_some_list(ls.take(i as int), s) {
                    let q = choose|q: int| 0 <= q < i && (#[trigger] ls.take(i as int)[q]).contains(s);
                    assert(ls.take(i + 1)[q] == ls.take(i as int)[q]);
                }
                if string_views(list@).contains(s) {
                    assert(ls.take(i + 1)[i as int] == string_views(list@));
                }
            }
        }
        i += 1;
    }
    assert(ls.take(lists.len() as int) =~= ls);
    r
}

/// The groups a path needs, from the outermost: each piece with the path up to it.
pub open spec fn path_steps(path: Seq<char>) -> Seq<(Seq<char>, Seq<char>)> {
    let parts = split_on(path, '/');
    Seq::new(parts.len(), |i: int| (parts[i], join_with(parts.take(i + 1), '/')))
}

/// The groups a path needs: each piece with the path up to and including it.
pub fn group_path_steps(path: &str) -> (r: Vec<(String, String)>)
    ensures
        r@.map_values(|p: (String, String)| (p.0@, p.1@)) == path_steps(path@),
{
    let parts = segments(path);
    let mut r: Vec<(String, String)> = Vec::new();
    let mut i: usize = 0;
    while i < parts.len()
        invariant
            i <= parts.len(),
            views(parts@) == split_on(path@, '/'),
            r@.map_values(|p: (String, String)| (p.0@, p.1@)) == path_steps(path@).take(i as int),
        decreases parts.len() - i,
    {
        let ghost before = r@.map_values(|p: (String, String)| (p.0@, p.1@));
        let prefix = join_prefix(&parts, i + 1, '/');
        assert(views(parts@)[i as int] == parts@[i as int]@);
        let e = (string_of(&parts[i]), string_of(&prefix));
        assert((e.0@, e.1@) == path_steps(path@)[i as int]);
        r.push(e);
        assert(r@.map_values(|p: (String, String)| (p.0@, p.1@)) =~= before.push((e.0@, e.1@)));
        assert(path_steps(path@).take(i + 1) =~= path_steps(path@).take(i as int).push(path_steps(path@)[i as int]));
        i += 1;
    }
    assert(path_steps(path@).take(parts.len() as int) =~= path_steps(path@));
    r
}

/// The enclosing paths of a path, from the nearest outwards.
pub open spec fn ancestors(path: Seq<char>) -> Seq<Seq<char>> {
    let parts = split_on(path, '/');
    Seq::new((parts.len() - 1) as nat, |k: int| join_with(parts.take(parts.len() - 1 - k), '/'))
}

/// The enclosing paths of a path, from the nearest outwards.
pub fn ancestor_paths(path: &str) -> (r: Vec<String>)
    ensures
        string_views(r@) == ancestors(path@),
{
    let parts = segments(path);
    let n = parts.len();
    let mut r: Vec<String> = Vec::new();
    let mut i: usize = n - 1;
    while i >= 1
        invariant
            i <= n - 1,
            n == parts.len(),
            n >= 1,
            views(parts@) == split_on(path@, '/'),
            string_views(r@) == ancestors(path@).take((n - 1 - i) as int),
        decreases i,
    {
        let p = join_prefix(&parts, i, '/');
        let ghost before = string_views(r@);
        let ps = string_of(&p);
        assert(ps@ == ancestors(path@)[(n - 1 - i) as int]);
        r.push(ps);
        assert(string_views(r@) =~= before.push(ps@));
        assert(ancestors(path@).take((n - 1 - i + 1) as int) =~= ancestors(path@).take((n - 1 - i) as int).push(ancestors(path@)[(n - 1 - i) as int]));
        i -= 1;
    }
    assert(ancestors(path@).take((n - 1) as int) =~= ancestors(path@));
    r
}

/// What making sure of the groups on a path asks the database next.
pub enum PathStep {
    /// The id of the group at this path, if it has a record.
    Lookup(String),
    /// Record a group with this name and path under the parent group (none
    /// for the first piece); answer with its new id.
    Create { name: String, path: String, parent_id: Option<i64> },
    /// All groups exist; this is the id of the deepest (0 when there is none).
    Done(i64),
}

/// The plain value of a [`PathStep`].
pub enum PathStepView {
    Lookup(Seq<char>),
    Create(Seq<char>, Seq<char>, Option<i64>),
    Done(i64),
}

impl View for PathStep {
    type V = PathStepView;

    open spec fn view(&self) -> PathStepView {
        match self {
            PathStep::Lookup(p) => PathStepView::Lookup(p@),
            PathStep::Create { name, path, parent_id } => PathStepView::Create(name@, path@, *parent_id),
            PathStep::Done(id) => PathStepView::Done(*id),
        }
    }
}

/// The database's answer to the last step.
pub enum PathAnswer {
    /// The id of the group looked up, when it has a record.
    Found(Option<i64>),
    /// The id of the group just recorded.
    Created(i64),
}

/// Making sure that every group on a path has a record, from the outermost:
/// each group found gives its id as the parent of the next; each one missing
/// is recorded under that parent.
pub struct GroupPathWalk {
    pub steps: Vec<(String, String)>,
    pub next: usize,
    pub parent_id: Option<i64>,
    pub creating: bool,
}

/// The step that comes after piece `next` of `steps` is settled with id `id`.
pub open spec fn path_step_after(steps: Seq<(Seq<char>, Seq<char>)>, next: int, id: Option<i64>) -> PathStepView {
    if next + 1 < steps.len() {
        PathStepView::Lookup(steps[next + 1].1)
    } else {
        PathStepView::Done(
            match id {
                Some(i) => i,
                None => 0,
            },
        )
    }
}

impl GroupPathWalk {
    /// The steps as plain values.
    pub open spec fn steps_view(&self) -> Seq<(Seq<char>, Seq<char>)> {
        self.steps@.map_values(|p: (String, String)| (p.0@, p.1@))
    }

    /// Starts with the outermost group of `path`.
    pub fn new(path: &str) -> (r: (GroupPathWalk, PathStep))
        ensures
            r.0.steps_view() == path_steps(path@),
            r.0.next == 0,
            r.0.parent_id is None,
            !r.0.creating,
            r.1@ == (if path_steps(path@).len() > 0 {
                PathStepView::Lookup(path_steps(path@)[0].1)
            } else {
                PathStepView::Done(0)
            }),
    {
        let steps = group_path_steps(path);
        let first = if steps.len() > 0 {
            PathStep::Lookup(steps[0].1.clone())
        } else {
            PathStep::Done(0)
        };
        (GroupPathWalk { steps, next: 0, parent_id: None, creating: false }, first)
    }

    fn after(&mut self, id: i64) -> (q: PathStep)
        requires
            old(self).next < old(self).steps.len(),
        ensures
            q@ == path_step_after(old(self).steps_view(), old(self).next as int, Some(id)),
            final(self).steps == old(self).steps,
            final(self).next == old(self).next + 1,
            final(self).parent_id == Some(id),
            !final(self).creating,
    {
        self.parent_id = Some(id);
        self.creating = false;
        self.next = self.next + 1;
        if self.next < self.steps.len() {
            PathStep::Lookup(self.steps[self.next].1.clone())
        } else {
            PathStep::Done(id)
        }
    }

    /// Takes the answer to the last step and gives the next: a group found
    /// or just recorded becomes the parent and the walk moves on; a group
    /// not found is recorded under the current parent.
    pub fn answer(&mut self, a: PathAnswer) -> (q: PathStep)
        requires
            old(self).next < old(self).steps.len(),
            match a {
                PathAnswer::Found(_) => !old(self).creating,
                PathAnswer::Created(_) => old(self).creating,
            },
        ensures
            final(self).steps == old(self).steps,
            match a {
                PathAnswer::Found(Some(id)) => q@ == path_step_after(old(self).steps_view(), old(self).next as int, Some(id))
                    && final(self).next == old(self).next + 1 && final(self).parent_id == Some(id) && !final(self).creating,
                PathAnswer::Found(None) => q@ == PathStepView::Create(
                    old(self).steps_view()[old(self).next as int].0,
                    old(self).steps_view()[old(self).next as int].1,
                    old(self).parent_id,
                ) && final(self).next == old(self).next && final(self).parent_id == old(self).parent_id
                    && final(self).creating,
                PathAnswer::Created(id) => q@ == path_step_after(old(self).steps_view(), old(self).next as int, Some(id))
                    && final(self).next == old(self).next + 1 && final(self).parent_id == Some(id) && !final(self).creating,
            },
    {
        match a {
            PathAnswer::Found(Some(id)) => self.after(id),
            PathAnswer::Found(None) => {
                self.creating = true;
                let (name, path) = (self.steps[self.next].0.clone(), self.steps[self.next].1.clone());
                PathStep::Create { name, path, parent_id: self.parent_id }
            },
            PathAnswer::Created(id) => self.after(id),
        }
    }
}

/// The SQL `LIKE` pattern of everything below `path`: `path/%`.
pub fn subtree_pattern(path: &str) -> (r: String)
    ensures
        r@ == path@ + "/%"@,
{
    let mut v = chars_of(path);
    crate::text::append_str(&mut v, "/%");
    string_of(&v)
}

/// How a missing group record is filled in: its name is the last piece of
/// its path, its parent the pieces before (if any), and its owner the user
/// named by the first piece.
pub struct GroupRecordPlan {
    pub name: String,
    pub parent_path: Option<String>,
    pub owner_username: String,
}

/// How a missing group record at `path` is filled in.
pub fn group_record_plan(path: &str) -> (r: GroupRecordPlan)
    ensures
        r.name@ == last_segment(path@),
        match r.parent_path {
            Some(p) => parent_segments(path@) == Some(p@),
            None => parent_segments(path@) is None,
        },
        r.owner_username@ == first_segment(path@),
{
    GroupRecordPlan {
        name: last_segment_of(path),
        parent_path: parent_segments_of(path),
        owner_username: first_segment_of(path),
    }
}

/// The group that records a missing repository at `path` when the
/// repository is met by browsing: the pieces before the last, or, for a
/// path of one piece, the path itself.
pub fn repo_record_group(path: &str) -> (r: String)
    ensures
        r@ == match parent_segments(path@) {
            Some(p) => p,
            None => first_segment(path@),
        },
{
    match parent_segments_of(path) {
        Some(p) => p,
        None => first_segment_of(path),
    }
}

/// The group that records a missing repository at `path` when a member is
/// added to it: the pieces before the last, or else the owner's folder.
pub fn repo_member_record_group(path: &str, owner_username: &str) -> (r: String)
    ensures
        r@ == match parent_segments(path@) {
            Some(p) => p,
            None => owner_username@,
        },
{
    match parent_segments_of(path) {
        Some(p) => p,
        None => String::from_str(owner_username),
    }
}

/// Who may see the members of a group or repository: its owner, an
/// administrator, or one of its members.
pub fn may_list_members(user: &AuthUser, owner_id: Option<i64>, member_ids: &Vec<i64>) -> (r: bool)
    ensures
        r == (owner_id == Some(user.user_id) || user.is_admin || member_ids@.contains(user.user_id)),
{
    if owner_id == Some(user.user_id) || user.is_admin {
        return true;
    }
    let mut i: usize = 0;
    while i < member_ids.len()
        invariant
            i <= member_ids.len(),
            forall|k: int| 0 <= k < i ==> member_ids@[k] != user.user_id,
        decreases member_ids.len() - i,
    {
        if member_ids[i] == user.user_id {
            assert(member_ids@[i as int] == user.user_id);
            return true;
        }
        i += 1;
    }
    false
}

/// Who may add, remove or change members: an administrator or the owner.
pub fn may_manage_members(user: &AuthUser, owner_id: Option<i64>) -> (r: bool)
    ensures
        r == (user.is_admin || owner_id == Some(user.user_id)),
{
    user.is_admin || owner_id == Some(user.user_id)
}

/// The role of a new member: the one asked for, else `default_role`.
pub fn member_role(asked: &Option<String>, default_role: &str) -> (r: String)
    ensures
        r@ == match asked {
            Some(a) => a@,
            None => default_role@,
        },
{
    match asked {
        Some(a) => a.clone(),
        None => String::from_str(default_role),
    }
}

/// The next question of a path access check.
pub enum AccessQuery {
    /// The group at this path: its id and owner, if there is one.
    GroupByPath(String),
    /// The user ids of the members of this group.
    GroupMembers(i64),
    /// The repository at this path: its id and owner, if there is one.
    RepoByPath(String),
    /// The user ids of the members of this repository.
    RepoMembers(i64),
    /// The check is over.
    Decided(bool),
}

/// The plain value of an [`AccessQuery`].
pub enum AccessQueryView {
    GroupByPath(Seq<char>),
    GroupMembers(i64),
    RepoByPath(Seq<char>),
    RepoMembers(i64),
    Decided(bool),
}

impl View for AccessQuery {
    type V = AccessQueryView;

    open spec fn view(&self) -> AccessQueryView {
        match self {
            AccessQuery::GroupByPath(p) => AccessQueryView::GroupByPath(p@),
            AccessQuery::GroupMembers(g) => AccessQueryView::GroupMembers(*g),
            AccessQuery::RepoByPath(p) => AccessQueryView::RepoByPath(p@),
            AccessQuery::RepoMembers(r) => AccessQueryView::RepoMembers(*r),
            AccessQuery::Decided(b) => AccessQueryView::Decided(*b),
        }
    }
}

/// The database's answer to the last question.
pub enum AccessAnswer {
    /// The id and owner of the record asked for, when there is one.
    Record(Option<(i64, Option<i64>)>),
    /// The user ids of the members asked for.
    Members(Vec<i64>),
}

/// Which question a check waits on.
#[derive(PartialEq, Eq, Structural, Clone, Copy)]
pub enum AccessStage {
    Group,
    GroupMembers,
    Repo,
    RepoMembers,
    Ancestor,
    AncestorMembers,
    Done,
}

/// Whether a user may reach a path through the database: as owner or member
/// of the group at the path, as owner or member of the repository at the
/// path, or as member of a group that encloses the path (nearest first).
pub struct AccessCheck {
    pub user_id: i64,
    pub path: String,
    pub ancestors: Vec<String>,
    pub next: usize,
    pub stage: AccessStage,
}

/// The answer fits the question.
pub open spec fn fits(stage: AccessStage, a: AccessAnswer) -> bool {
    match a {
        AccessAnswer::Record(_) => stage == AccessStage::Group || stage == AccessStage::Repo
            || stage == AccessStage::Ancestor,
        AccessAnswer::Members(_) => stage == AccessStage::GroupMembers || stage
            == AccessStage::RepoMembers || stage == AccessStage::AncestorMembers,
    }
}

/// Asks for the next enclosing group, or ends the check unanswered.
pub open spec fn next_ancestor(anc: Seq<Seq<char>>, next: int) -> (AccessStage, int, AccessQueryView) {
    if next < anc.len() {
        (AccessStage::Ancestor, next + 1, AccessQueryView::GroupByPath(anc[next]))
    } else {
        (AccessStage::Done, next, AccessQueryView::Decided(false))
    }
}

/// The stage, position among the enclosing groups, and question that
/// follow an answer.
pub open spec fn access_next(
    user_id: i64,
    path: Seq<char>,
    anc: Seq<Seq<char>>,
    next: int,
    stage: AccessStage,
    a: AccessAnswer,
) -> (AccessStage, int, AccessQueryView) {
    match a {
        AccessAnswer::Record(rec) => match rec {
            Some(r) => if stage == AccessStage::Group {
                if r.1 == Some(user_id) {
                    (AccessStage::Done, next, AccessQueryView::Decided(true))
                } else {
                    (AccessStage::GroupMembers, next, AccessQueryView::GroupMembers(r.0))
                }
            } else if stage == AccessStage::Repo {
                if r.1 == Some(user_id) {
                    (AccessStage::Done, next, AccessQueryView::Decided(true))
                } else {
                    (AccessStage::RepoMembers, next, AccessQueryView::RepoMembers(r.0))
                }
            } else {
                (AccessStage::AncestorMembers, next, AccessQueryView::GroupMembers(r.0))
            },
            None => if stage == AccessStage::Group {
                (AccessStage::Repo, next, AccessQueryView::RepoByPath(path))
            } else {
                next_ancestor(anc, next)
            },
        },
        AccessAnswer::Members(ids) => if ids@.contains(user_id) {
            (AccessStage::Done, next, AccessQueryView::Decided(true))
        } else if stage == AccessStage::GroupMembers {
            (AccessStage::Repo, next, AccessQueryView::RepoByPath(path))
        } else {
            next_ancestor(anc, next)
        },
    }
}

impl AccessCheck {
    /// Starts the check of `path` for `user_id`: first the group at the path.
    pub fn new(user_id: i64, path: &str) -> (r: (AccessCheck, AccessQuery))
        ensures
            r.0.user_id == user_id,
            r.0.path@ == path@,
            string_views(r.0.ancestors@) == ancestors(path@),
            r.0.next == 0,
            r.0.stage == AccessStage::Group,
            r.1@ == AccessQueryView::GroupByPath(path@),
    {
        let anc = ancestor_paths(path);
        (
            AccessCheck {
                user_id,
                path: String::from_str(path),
                ancestors: anc,
                next: 0,
                stage: AccessStage::Group,
            },
            AccessQuery::GroupByPath(String::from_str(path)),
        )
    }

    fn ask_next_ancestor(&mut self) -> (q: AccessQuery)
        requires
            old(self).next <= old(self).ancestors.len(),
        ensures
            (final(self).stage, final(self).next as int, q@) == next_ancestor(
                string_views(old(self).ancestors@),
                old(self).next as int,
            ),
            final(self).user_id == old(self).user_id,
            final(self).path == old(self).path,
            final(self).ancestors == old(self).ancestors,
            final(self).next <= final(self).ancestors.len(),
    {
        if self.next < self.ancestors.len() {
            let p = self.ancestors[self.next].clone();
            self.next = self.next + 1;
            self.stage = AccessStage::Ancestor;
            AccessQuery::GroupByPath(p)
        } else {
            self.stage = AccessStage::Done;
            AccessQuery::Decided(false)
        }
    }

    /// Takes the answer to the last question and asks the next one.
    pub fn answer(&mut self, a: AccessAnswer) -> (q: AccessQuery)
        requires
            fits(old(self).stage, a),
            old(self).next <= old(self).ancestors.len(),
        ensures
            (final(self).stage, final(self).next as int, q@) == access_next(
                old(self).user_id,
                old(self).path@,
                string_views(old(self).ancestors@),
                old(self).next as int,
                old(self).stage,
                a,
            ),
            final(self).user_id == old(self).user_id,
            final(self).path == old(self).path,
            final(self).ancestors == old(self).ancestors,
            final(self).next <= final(self).ancestors.len(),
    {
        match a {
            AccessAnswer::Record(rec) => match rec {
                Some(r) => {
                    if self.stage == AccessStage::Group {
                        if r.1 == Some(self.user_id) {
                            self.stage = AccessStage::Done;
                            AccessQuery::Decided(true)
                        } else {
                            self.stage = AccessStage::GroupMembers;
                            AccessQuery::GroupMembers(r.0)
                        }
                    } else if self.stage == AccessStage::Repo {
                        if r.1 == Some(self.user_id) {
                            self.stage = AccessStage::Done;
                            AccessQuery::Decided(true)
                        } else {
                            self.stage = AccessStage::RepoMembers;
                            AccessQuery::RepoMembers(r.0)
                        }
                    } else {
                        self.stage = AccessStage::AncestorMembers;
                        AccessQuery::GroupMembers(r.0)
                    }
                },
                None => {
                    if self.stage == AccessStage::Group {
                        self.stage = AccessStage::Repo;
                        AccessQuery::RepoByPath(self.path.clone())
                    } else {
                        self.ask_next_ancestor()
                    }
                },
            },
            AccessAnswer::Members(ids) => {
                let mut found = false;
                let mut i: usize = 0;
                while i < ids.len()
                    invariant
                        i <= ids.len(),
                        found == exists|k: int| 0 <= k < i && ids@[k] == self.user_id,
                    decreases ids.len() - i,
                {
                    if ids[i] == self.user_id {
                        found = true;
                    }
                    i += 1;
                }
                if found {
                    self.stage = AccessStage::Done;
                    AccessQuery::Decided(true)
                } else if self.stage == AccessStage::GroupMembers {
                    self.stage = AccessStage::Repo;
                    AccessQuery::RepoByPath(self.path.clone())
                } else {
                    self.ask_next_ancestor()
                }
            },
        }
    }
}

/// The check grants access only on an answer that names the user: an owner
/// id equal to the user's, or a member list that holds the user.
pub proof fn law_access_granted_only_by_answer(
    user_id: i64,
    path: Seq<char>,
    anc: Seq<Seq<char>>,
    next: int,
    stage: AccessStage,
    a: AccessAnswer,
)
    requires
        access_next(user_id, path, anc, next, stage, a).2 == AccessQueryView::Decided(true),
    ensures
        match a {
            AccessAnswer::Record(rec) => rec matches Some(r) && r.1 == Some(user_id) && (stage == AccessStage::Group || stage == AccessStage::Repo),
            AccessAnswer::Members(ids) => ids@.contains(user_id),
        },
{
}

/// How many more questions a check may ask: two for the group at the path,
/// two for the repository, and two for each enclosing group not yet asked.
pub open spec fn questions_left(stage: AccessStage, next: int, n: int) -> int {
    let k = n - next;
    match stage {
        AccessStage::Group => 2 * k + 6,
        AccessStage::GroupMembers => 2 * k + 5,
        AccessStage::Repo => 2 * k + 4,
        AccessStage::RepoMembers => 2 * k + 3,
        AccessStage::Ancestor => 2 * k + 2,
        AccessStage::AncestorMembers => 2 * k + 1,
        AccessStage::Done => 0,
    }
}

/// The check always ends: every answer either decides or leaves fewer
/// questions to ask, so a path with `n` enclosing groups takes at most
/// `2 * n + 6` questions.
pub proof fn law_access_check_ends(
    user_id: i64,
    path: Seq<char>,
    anc: Seq<Seq<char>>,
    next: int,
    stage: AccessStage,
    a: AccessAnswer,
)
    requires
        fits(stage, a),
        0 <= next <= anc.len(),
    ensures
        ({
            let (s2, n2, q) = access_next(user_id, path, anc, next, stage, a);
            &&& 0 <= n2 <= anc.len()
            &&& questions_left(s2, n2, anc.len() as int) < questions_left(stage, next, anc.len() as int)
            &&& (s2 == AccessStage::Done <==> q is Decided)
        }),
        questions_left(AccessStage::Group, 0, anc.len() as int) == 2 * anc.len() + 6,
{
}

/// The records a path access check reads: the group and the repository at a
/// path (id and owner), and the user ids of the members of a group and of a
/// repository.
pub struct AccessRecords {
    pub groups: spec_fn(Seq<char>) -> Option<(i64, Option<i64>)>,
    pub repos: spec_fn(Seq<char>) -> Option<(i64, Option<i64>)>,
    pub group_members: spec_fn(i64) -> Seq<i64>,
    pub repo_members: spec_fn(i64) -> Seq<i64>,
}

/// The group at `p` has a record whose members include the user.
pub open spec fn member_of_group_at(db: AccessRecords, user_id: i64, p: Seq<char>) -> bool {
    (db.groups)(p) matches Some(g) && (db.group_members)(g.0).contains(user_id)
}

/// What the records grant: the user owns or is a member of the group at
/// the path, owns or is a member of the repository at the path, or is a
/// member of one of the enclosing groups `anc`.
pub open spec fn records_grant(db: AccessRecords, user_id: i64, path: Seq<char>, anc: Seq<Seq<char>>) -> bool {
    ||| (db.groups)(path) matches Some(g) && (g.1 == Some(user_id) || (db.group_members)(g.0).contains(user_id))
    ||| (db.repos)(path) matches Some(r) && (r.1 == Some(user_id) || (db.repo_members)(r.0).contains(user_id))
    ||| exists|j: int| 0 <= j < anc.len() && member_of_group_at(db, user_id, #[trigger] anc[j])
}

/// `a` is what the records answer to `q`.
pub open spec fn truthful(db: AccessRecords, q: AccessQueryView, a: AccessAnswer) -> bool {
    match q {
        AccessQueryView::GroupByPath(p) => a == AccessAnswer::Record((db.groups)(p)),
        AccessQueryView::RepoByPath(p) => a == AccessAnswer::Record((db.repos)(p)),
        AccessQueryView::GroupMembers(g) => a matches AccessAnswer::Members(ids) && ids@ == (db.group_members)(g),
        AccessQueryView::RepoMembers(r) => a matches AccessAnswer::Members(ids) && ids@ == (db.repo_members)(r),
        AccessQueryView::Decided(_) => true,
    }
}

/// The question a check reaches from `q` after taking `answers` in turn
/// (it stops at a decision).
pub open spec fn run_access(
    user_id: i64,
    path: Seq<char>,
    anc: Seq<Seq<char>>,
    next: int,
    stage: AccessStage,
    q: AccessQueryView,
    answers: Seq<AccessAnswer>,
) -> AccessQueryView
    decreases answers.len(),
{
    if q is Decided || answers.len() == 0 {
        q
    } else {
        let s = access_next(user_id, path, anc, next, stage, answers[0]);
        run_access(user_id, path, anc, s.1, s.0, s.2, answers.drop_first())
    }
}

/// Every answer a run takes is what the records say to the question asked.
pub open spec fn run_truthful(
    db: AccessRecords,
    user_id: i64,
    path: Seq<char>,
    anc: Seq<Seq<char>>,
    next: int,
    stage: AccessStage,
    q: AccessQueryView,
    answers: Seq<AccessAnswer>,
) -> bool
    decreases answers.len(),
{
    if q is Decided || answers.len() == 0 {
        true
    } else {
        let s = access_next(user_id, path, anc, next, stage, answers[0]);
        truthful(db, q, answers[0]) && run_truthful(db, user_id, path, anc, s.1, s.0, s.2, answers.drop_first())
    }
}

spec fn none_of_first(db: AccessRecords, user_id: i64, anc: Seq<Seq<char>>, k: int) -> bool {
    forall|j: int| 0 <= j < k ==> !member_of_group_at(db, user_id, #[trigger] anc[j])
}

spec fn group_grant(db: AccessRecords, user_id: i64, path: Seq<char>) -> bool {
    (db.groups)(path) matches Some(g) && (g.1 == Some(user_id) || (db.group_members)(g.0).contains(user_id))
}

spec fn own_grant(db: AccessRecords, user_id: i64, path: Seq<char>) -> bool {
    ||| group_grant(db, user_id, path)
    ||| (db.repos)(path) matches Some(r) && (r.1 == Some(user_id) || (db.repo_members)(r.0).contains(user_id))
}

/// What each stage of a check knows of the records so far.
spec fn check_state_ok(
    db: AccessRecords,
    user_id: i64,
    path: Seq<char>,
    anc: Seq<Seq<char>>,
    next: int,
    stage: AccessStage,
    q: AccessQueryView,
) -> bool {
    &&& 0 <= next <= anc.len()
    &&& match stage {
        AccessStage::Group => next == 0 && q == AccessQueryView::GroupByPath(path),
        AccessStage::GroupMembers => {
            &&& next == 0
            &&& q is GroupMembers
            &&& (db.groups)(path) is Some
            &&& (db.groups)(path)->Some_0.0 == q->GroupMembers_0
            &&& (db.groups)(path)->Some_0.1 != Some(user_id)
        },
        AccessStage::Repo => {
            &&& next == 0
            &&& q == AccessQueryView::RepoByPath(path)
            &&& !group_grant(db, user_id, path)
        },
        AccessStage::RepoMembers => {
            &&& next == 0
            &&& q is RepoMembers
            &&& (db.repos)(path) is Some
            &&& (db.repos)(path)->Some_0.0 == q->RepoMembers_0
            &&& (db.repos)(path)->Some_0.1 != Some(user_id)
            &&& !group_grant(db, user_id, path)
        },
        AccessStage::Ancestor => 1 <= next && q == AccessQueryView::GroupByPath(anc[next - 1])
            && !own_grant(db, user_id, path) && none_of_first(db, user_id, anc, next - 1),
        AccessStage::AncestorMembers => {
            &&& 1 <= next
            &&& q is GroupMembers
            &&& (db.groups)(anc[next - 1]) is Some
            &&& (db.groups)(anc[next - 1])->Some_0.0 == q->GroupMembers_0
            &&& !own_grant(db, user_id, path)
            &&& none_of_first(db, user_id, anc, next - 1)
        },
        AccessStage::Done => q == AccessQueryView::Decided(records_grant(db, user_id, path, anc)),
    }
}

proof fn lemma_none_left(db: AccessRecords, user_id: i64, path: Seq<char>, anc: Seq<Seq<char>>)
    requires
        !own_grant(db, user_id, path),
        none_of_first(db, user_id, anc, anc.len() as int),
    ensures
        !records_grant(db, user_id, path, anc),
{
    if records_grant(db, user_id, path, anc) {
        let j = choose|j: int| 0 <= j < anc.len() && member_of_group_at(db, user_id, #[trigger] anc[j]);
        assert(!member_of_group_at(db, user_id, anc[j]));
    }
}

proof fn lemma_check_step(
    db: AccessRecords,
    user_id: i64,
    path: Seq<char>,
    anc: Seq<Seq<char>>,
    next: int,
    stage: AccessStage,
    q: AccessQueryView,
    a: AccessAnswer,
)
    requires
        check_state_ok(db, user_id, path, anc, next, stage, q),
        stage != AccessStage::Done,
        truthful(db, q, a),
    ensures
        ({
            let s = access_next(user_id, path, anc, next, stage, a);
            check_state_ok(db, user_id, path, anc, s.1, s.0, s.2)
        }),
{
    let s = access_next(user_id, path, anc, next, stage, a);
    if stage == AccessStage::Ancestor || stage == AccessStage::AncestorMembers {
        let k = next - 1;
        assert(anc[k] == anc[k]);
        if !member_of_group_at(db, user_id, anc[k]) {
            assert forall|j: int| 0 <= j < next implies !member_of_group_at(db, user_id, #[trigger] anc[j]) by {
                if j < k {
                    assert(none_of_first(db, user_id, anc, k));
                }
            }
            assert(none_of_first(db, user_id, anc, next));
            if next == anc.len() {
                lemma_none_left(db, user_id, path, anc);
            }
        } else {
            assert(records_grant(db, user_id, path, anc));
        }
    } else {
        if next == anc.len() && !own_grant(db, user_id, path) {
            lemma_none_left(db, user_id, path, anc);
        }
        assert(none_of_first(db, user_id, anc, 0));
    }
}

proof fn lemma_run(
    db: AccessRecords,
    user_id: i64,
    path: Seq<char>,
    anc: Seq<Seq<char>>,
    next: int,
    stage: AccessStage,
    q: AccessQueryView,
    answers: Seq<AccessAnswer>,
)
    requires
        check_state_ok(db, user_id, path, anc, next, stage, q),
        (stage == AccessStage::Done) == (q is Decided),
        run_truthful(db, user_id, path, anc, next, stage, q, answers),
        run_access(user_id, path, anc, next, stage, q, answers) is Decided,
    ensures
        run_access(user_id, path, anc, next, stage, q, answers) == AccessQueryView::Decided(
            records_grant(db, user_id, path, anc),
        ),
    decreases answers.len(),
{
    if q is Decided || answers.len() == 0 {
    } else {
        let s = access_next(user_id, path, anc, next, stage, answers[0]);
        lemma_check_step(db, user_id, path, anc, next, stage, q, answers[0]);
        lemma_run(db, user_id, path, anc, s.1, s.0, s.2, answers.drop_first());
    }
}

/// A path access check decides what the records grant: when every answer
/// is what the records say to the question asked, a check that has come to
/// a decision grants access exactly when the user owns or is a member of
/// the group or the repository at the path, or is a member of some
/// enclosing group; an enclosing group without a record is passed over.
pub proof fn law_access_check_follows_records(
    db: AccessRecords,
    user_id: i64,
    path: Seq<char>,
    anc: Seq<Seq<char>>,
    answers: Seq<AccessAnswer>,
)
    requires
        run_truthful(db, user_id, path, anc, 0, AccessStage::Group, AccessQueryView::GroupByPath(path), answers),
        run_access(user_id, path, anc, 0, AccessStage::Group, AccessQueryView::GroupByPath(path), answers) is Decided,
    ensures
        run_access(user_id, path, anc, 0, AccessStage::Group, AccessQueryView::GroupByPath(path), answers)
            == AccessQueryView::Decided(records_grant(db, user_id, path, anc)),
{
    lemma_run(db, user_id, path, anc, 0, AccessStage::Group, AccessQueryView::GroupByPath(path), answers);
}

/// The part of `s` before its `m`-th `c`: the first `m` pieces joined again.
spec fn pieces_before(s: Seq<char>, c: char, m: int) -> Seq<char> {
    join_with(split_on(s, c).take(m), c)
}

proof fn lemma_pieces_before(s: Seq<char>, c: char, m: int)
    requires
        1 <= m <= split_on(s, c).len(),
    ensures
        pieces_before(s, c, m).len() <= s.len(),
        pieces_before(s, c, m) == s.subrange(0, pieces_before(s, c, m).len() as int),
        m < split_on(s, c).len() ==> pieces_before(s, c, m).len() < s.len() && s[pieces_before(s, c, m).len() as int] == c,
        m == split_on(s, c).len() ==> pieces_before(s, c, m) == s,
    decreases s.len(),
{
    lemma_split_nonempty(s, c);
    let parts = split_on(s, c);
    if m == parts.len() {
        assert(parts.take(m) =~= parts);
        lemma_join_split(s, c);
        assert(s.subrange(0, s.len() as int) =~= s);
    } else {
        let t = s.drop_last();
        lemma_split_nonempty(t, c);
        let r = split_on(t, c);
        assert(parts.take(m) =~= r.take(m));
        assert(pieces_before(s, c, m) == pieces_before(t, c, m));
        lemma_pieces_before(t, c, m);
        let q = pieces_before(t, c, m);
        assert(q =~= s.subrange(0, q.len() as int));
        if m < r.len() {
            assert(s[q.len() as int] == t[q.len() as int]);
        } else {
            assert(q == t);
            assert(s.last() == c);
        }
    }
}

proof fn lemma_pieces_grow(s: Seq<char>, c: char, m: int)
    requires
        1 <= m < split_on(s, c).len(),
    ensures
        pieces_before(s, c, m + 1) == pieces_before(s, c, m).push(c) + split_on(s, c)[m],
{
    let parts = split_on(s, c);
    assert(parts.take(m + 1).drop_last() =~= parts.take(m));
}

/// Every `c` of `s` at or after the end of the first `m` pieces ends some
/// later run of pieces.
proof fn lemma_every_cut_found(s: Seq<char>, c: char, m: int, k: int)
    requires
        1 <= m <= split_on(s, c).len(),
        pieces_before(s, c, m).len() <= k < s.len(),
        s[k] == c,
    ensures
        exists|m2: int| m <= m2 < split_on(s, c).len() && pieces_before(s, c, m2).len() == k,
    decreases split_on(s, c).len() - m,
{
    let parts = split_on(s, c);
    lemma_pieces_before(s, c, m);
    let q = pieces_before(s, c, m);
    if m == parts.len() {
        assert(q == s);
    } else if q.len() == k {
        assert(pieces_before(s, c, m).len() == k);
    } else {
        lemma_pieces_grow(s, c, m);
        lemma_pieces_before(s, c, m + 1);
        let q2 = pieces_before(s, c, m + 1);
        if k < q2.len() {
            lemma_split_pieces_free(s, c, m);
            let piece = parts[m];
            assert(q2[k] == s[k]);
            assert(q2[k] == piece[k - q.len() - 1]);
            assert(piece.contains(c));
        } else {
            assert(q2.len() <= s.len());
            lemma_every_cut_found(s, c, m + 1, k);
        }
    }
}

/// The enclosing paths of a path are exactly its beginnings that stop just
/// before a `/`, one for each `/`, from the nearest outwards: each is the
/// path up to a `/`, each is shorter than the one before it, and every `/`
/// of the path ends one of them.
pub proof fn law_ancestors_are_the_enclosing_paths(path: Seq<char>)
    ensures
        forall|j: int| 0 <= j < ancestors(path).len() ==> {
            let a = #[trigger] ancestors(path)[j];
            &&& a.len() < path.len()
            &&& path[a.len() as int] == '/'
            &&& a == path.subrange(0, a.len() as int)
        },
        forall|j: int, k: int| 0 <= j < k < ancestors(path).len() ==> #[trigger] ancestors(path)[j].len() > #[trigger] ancestors(path)[k].len(),
        forall|k: int| 0 <= k < path.len() && path[k] == '/' ==> exists|j: int| 0 <= j < ancestors(path).len() && (#[trigger] ancestors(path)[j]).len() == k,
{
    let c = '/';
    lemma_split_nonempty(path, c);
    let parts = split_on(path, c);
    let n = parts.len();
    let anc = ancestors(path);
    assert forall|j: int| 0 <= j < anc.len() implies anc[j] == pieces_before(path, c, n - 1 - j) by {}
    assert forall|j: int| 0 <= j < anc.len() implies {
        let a = #[trigger] anc[j];
        &&& a.len() < path.len()
        &&& path[a.len() as int] == '/'
        &&& a == path.subrange(0, a.len() as int)
    } by {
        lemma_pieces_before(path, c, n - 1 - j);
    }
    assert forall|j: int, k: int| 0 <= j < k < anc.len() implies #[trigger] anc[j].len() > #[trigger] anc[k].len() by {
        lemma_pieces_longer(path, c, n - 1 - k, n - 1 - j);
    }
    assert forall|k: int| 0 <= k < path.len() && path[k] == '/' implies exists|j: int| 0 <= j < anc.len() && (#[trigger] anc[j]).len() == k by {
        lemma_pieces_before(path, c, 1);
        assert(parts.take(1) =~= seq![parts[0]]);
        let q1 = pieces_before(path, c, 1);
        assert(q1 == parts[0]);
        if k < q1.len() {
            lemma_split_pieces_free(path, c, 0);
            assert(q1[k] == path[k]);
            assert(parts[0].contains(c));
        }
        lemma_every_cut_found(path, c, 1, k);
        let m2 = choose|m2: int| 1 <= m2 < n && pieces_before(path, c, m2).len() == k;
        let j = n - 1 - m2;
        assert(anc[j] == pieces_before(path, c, m2));
    }
}

proof fn lemma_pieces_longer(s: Seq<char>, c: char, m: int, m2: int)
    requires
        1 <= m < m2 <= split_on(s, c).len(),
    ensures
        pieces_before(s, c, m).len() < pieces_before(s, c, m2).len(),
    decreases m2 - m,
{
    lemma_pieces_grow(s, c, m);
    if m + 1 < m2 {
        lemma_pieces_longer(s, c, m + 1, m2);
    }
}

} // verus!
