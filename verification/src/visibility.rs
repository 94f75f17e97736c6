//! Which scanned entries a user may see in the repository tree.
use vstd::prelude::*;
use crate::auth::AuthUser;
use crate::scanner::{RepoEntry, RepoEntryView, entry_views, git_suffix};
use crate::text::{
    has_prefix, has_suffix, string_views, chars_of, starts_with, ends_with, chars_eq,
    contains_char, slice_chars,
};
use crate::tree::{TreeNode, build_tree, kids, nodes_of, tree_ok};

verus! {

/// What a signed-in user has been given access to: the paths of the groups
/// and repositories they own or belong to, and each group they are a member
/// of with whether they may see its subgroups.
pub struct TreeAccess {
    pub groups: Vec<String>,
    pub repos: Vec<String>,
    pub member_groups: Vec<(String, bool)>,
}

/// The plain value of a [`TreeAccess`].
pub struct TreeAccessView {
    pub groups: Seq<Seq<char>>,
    pub repos: Seq<Seq<char>>,
    pub member_groups: Seq<(Seq<char>, bool)>,
}

impl View for TreeAccess {
    type V = TreeAccessView;

    open spec fn view(&self) -> TreeAccessView {
        TreeAccessView {
            groups: string_views(self.groups@),
            repos: string_views(self.repos@),
            member_groups: self.member_groups@.map_values(|m: (String, bool)| (m.0@, m.1)),
        }
    }
}

/// `path` lies in the user's own folder: it is the folder or lies below it.
pub open spec fn in_own_folder(path: Seq<char>, username: Seq<char>) -> bool {
    has_prefix(path, username.push('/')) || path == username
}

/// `path` is one of `paths` or a parent of one of them.
pub open spec fn names_or_leads_to(path: Seq<char>, paths: Seq<Seq<char>>) -> bool {
    ||| paths.contains(path)
    ||| exists|i: int| 0 <= i < paths.len() && has_prefix(#[trigger] paths[i], path.push('/'))
}

/// `path` lies below the member group `g` and the membership shows it: all of
/// the group's contents when subgroups are visible, else only the
/// repositories directly inside it.
pub open spec fn shown_by_membership(path: Seq<char>, g: (Seq<char>, bool)) -> bool {
    &&& has_prefix(path, g.0.push('/'))
    &&& (g.1 || (!path.subrange(g.0.len() + 1int, path.len() as int).contains('/') && has_suffix(
        path,
        git_suffix(),
    )))
}

/// A signed-in user who is not an administrator sees this path.
pub open spec fn entry_visible(path: Seq<char>, username: Seq<char>, access: TreeAccessView) -> bool {
    ||| in_own_folder(path, username)
    ||| names_or_leads_to(path, access.groups)
    ||| names_or_leads_to(path, access.repos)
    ||| exists|i: int|
        0 <= i < access.member_groups.len() && shown_by_membership(
            path,
            #[trigger] access.member_groups[i],
        )
}

/// The entries, in order, whose path such a user sees.
pub open spec fn visible_entries(
    es: Seq<RepoEntryView>,
    username: Seq<char>,
    access: TreeAccessView,
) -> Seq<RepoEntryView>
    decreases es.len(),
{
    if es.len() == 0 {
        Seq::<RepoEntryView>::empty()
    } else {
        let r = visible_entries(es.drop_last(), username, access);
        if entry_visible(es.last().path, username, access) {
            r.push(es.last())
        } else {
            r
        }
    }
}

/// The entries shown to the requester: none when nobody is signed in, all of
/// them to an administrator, else those that [`entry_visible`] admits.
pub open spec fn shown_entries(
    es: Seq<RepoEntryView>,
    user: Option<(Seq<char>, bool)>,
    access: TreeAccessView,
) -> Seq<RepoEntryView> {
    match user {
        None => Seq::<RepoEntryView>::empty(),
        Some(u) => if u.1 {
            es
        } else {
            visible_entries(es, u.0, access)
        },
    }
}

/// The requester as a plain value: name and administrator flag.
pub open spec fn requester(user: Option<AuthUser>) -> Option<(Seq<char>, bool)> {
    match user {
        None => None,
        Some(u) => Some((u.username@, u.is_admin)),
    }
}

fn names_or_leads_to_exec(path: &Vec<char>, paths: &Vec<String>) -> (r: bool)
    ensures
        r == names_or_leads_to(path@, string_views(paths@)),
{
    let ghost ps = string_views(paths@);
    let mut dir = slice_chars(path, 0, path.len());
    dir.push('/');
    assert(dir@ =~= path@.push('/'));
    let mut i: usize = 0;
    while i < paths.len()
        invariant
            i <= paths.len(),
            ps == string_views(paths@),
            dir@ == path@.push('/'),
            forall|k: int| 0 <= k < i ==> ps[k] != path@ && !has_prefix(#[trigger] ps[k], dir@),
        decreases paths.len() - i,
    {
        let p = chars_of(paths[i].as_str());
        assert(ps[i as int] == p@);
        if chars_eq(&p, path) {
            assert(ps[i as int] == path@);
            return true;
        }
        if starts_with(&p, &dir) {
            return true;
        }
        i += 1;
    }
    assert(!ps.contains(path@)) by {
        if ps.contains(path@) {
            let k = choose|k: int| 0 <= k < ps.len() && ps[k] == path@;
            assert(ps[k] != path@);
        }
    }
    false
}

fn shown_by_membership_exec(path: &Vec<char>, group: &String, subgroups: bool) -> (r: bool)
    ensures
        r == shown_by_membership(path@, (group@, subgroups)),
{
    let mut dir = chars_of(group.as_str());
    dir.push('/');
    if !starts_with(path, &dir) {
        return false;
    }
    if subgroups {
        return true;
    }
    let rel = slice_chars(path, dir.len(), path.len());
    let git = vec!['.', 'g', 'i', 't'];
    assert(git@ == git_suffix());
    !contains_char(&rel, '/') && ends_with(path, &git)
}

/// Whether a signed-in non-administrator named `username` sees `path`.
pub fn is_entry_visible(path: &str, username: &str, access: &TreeAccess) -> (r: bool)
    ensures
        r == entry_visible(path@, username@, access@),
{
    let p = chars_of(path);
    let mut own = chars_of(username);
    let own_name = slice_chars(&own, 0, own.len());
    assert(own_name@ =~= username@);
    own.push('/');
    if starts_with(&p, &own) || chars_eq(&p, &own_name) {
        return true;
    }
    if names_or_leads_to_exec(&p, &access.groups) {
        return true;
    }
    if names_or_leads_to_exec(&p, &access.repos) {
        return true;
    }
    let ghost ms = access@.member_groups;
    let mut i: usize = 0;
    while i < access.member_groups.len()
        invariant
            i <= access.member_groups.len(),
            ms == access@.member_groups,
            p@ == path@,
            forall|k: int| 0 <= k < i ==> !shown_by_membership(p@, #[trigger] ms[k]),
        decreases access.member_groups.len() - i,
    {
        let m = &access.member_groups[i];
        assert(ms[i as int] == (m.0@, m.1));
        if shown_by_membership_exec(&p, &m.0, m.1) {
            assert(shown_by_membership(p@, ms[i as int]));
            return true;
        }
        i += 1;
    }
    false
}

/// The entries the requester sees, in scan order.
pub fn filter_entries(entries: Vec<RepoEntry>, user: &Option<AuthUser>, access: &TreeAccess) -> (r:
    Vec<RepoEntry>)
    ensures
        entry_views(r@) == shown_entries(entry_views(entries@), requester(*user), access@),
{
    match user {
        None => {
            let r: Vec<RepoEntry> = Vec::new();
            assert(entry_views(r@) =~= Seq::<RepoEntryView>::empty());
            r
        },
        Some(u) => {
            if u.is_admin {
                entries
            } else {
                let ghost all = entry_views(entries@);
                let mut kept: Vec<RepoEntry> = Vec::new();
                let mut rest = entries;
                let mut rev: Vec<RepoEntry> = Vec::new();
                let ghost n = rest.len();
                while rest.len() > 0
                    invariant
                        rest.len() + rev.len() == n,
                        n == all.len(),
                        forall|j: int| 0 <= j < rest.len() ==> (#[trigger] rest@[j])@ == all[j],
                        forall|j: int| 0 <= j < rev.len() ==> (#[trigger] rev@[j])@ == all[n - 1 - j],
                    decreases rest.len(),
                {
                    let e = rest.pop().unwrap();
                    rev.push(e);
                }
                assert(entry_views(kept@) =~= visible_entries(all.take(0), u.username@, access@));
                while rev.len() > 0
                    invariant
                        rev.len() <= n,
                        n == all.len(),
                        forall|j: int| 0 <= j < rev.len() ==> (#[trigger] rev@[j])@ == all[n - 1 - j],
                        entry_views(kept@) == visible_entries(
                            all.take(n - rev.len()),
                            u.username@,
                            access@,
                        ),
                    decreases rev.len(),
                {
                    let e = rev.pop().unwrap();
                    let ghost i = n - rev.len() - 1;
                    assert(e@ == all[i]);
                    assert(all.take(i + 1).drop_last() =~= all.take(i));
                    let ghost before = entry_views(kept@);
                    if is_entry_visible(e.path.as_str(), u.username.as_str(), access) {
                        kept.push(e);
                        assert(entry_views(kept@) =~= before.push(all[i]));
                    }
                }
                assert(all.take(n as int) =~= all);
                kept
            }
        },
    }
}

/// The repository tree the requester sees (the tree of [`filter_entries`]).
pub fn tree_for(entries: Vec<RepoEntry>, user: &Option<AuthUser>, access: &TreeAccess) -> (r: Vec<
    TreeNode,
>)
    ensures
        nodes_of(r@, kids(shown_entries(entry_views(entries@), requester(*user), access@), None)),
        tree_ok(r@, shown_entries(entry_views(entries@), requester(*user), access@)),
{
    let shown = filter_entries(entries, user, access);
    build_tree(shown)
}

/// The tree shows nothing that was not scanned: every entry shown to
/// anyone is one of the scanned entries.
pub proof fn law_shown_entries_were_scanned(
    es: Seq<RepoEntryView>,
    user: Option<(Seq<char>, bool)>,
    access: TreeAccessView,
    e: RepoEntryView,
)
    requires
        shown_entries(es, user, access).contains(e),
    ensures
        es.contains(e),
{
    match user {
        None => {},
        Some(u) => {
            if !u.1 {
                lemma_visible_from(es, u.0, access, e);
            }
        },
    }
}

proof fn lemma_visible_from(es: Seq<RepoEntryView>, username: Seq<char>, access: TreeAccessView, e: RepoEntryView)
    requires
        visible_entries(es, username, access).contains(e),
    ensures
        es.contains(e),
    decreases es.len(),
{
    if es.len() > 0 {
        let r = visible_entries(es.drop_last(), username, access);
        if r.contains(e) {
            lemma_visible_from(es.drop_last(), username, access, e);
            let j = choose|j: int| 0 <= j < es.drop_last().len() && es.drop_last()[j] == e;
            assert(es[j] == e);
        } else {
            assert(e == es.last());
            assert(es[es.len() - 1] == e);
        }
    }
}

/// A signed-in user always sees their own folder and everything scanned in
/// it, whatever access the database gives them.
pub proof fn law_own_folder_shown(
    es: Seq<RepoEntryView>,
    username: Seq<char>,
    is_admin: bool,
    access: TreeAccessView,
    e: RepoEntryView,
)
    requires
        es.contains(e),
        in_own_folder(e.path, username),
    ensures
        shown_entries(es, Some((username, is_admin)), access).contains(e),
{
    if !is_admin {
        lemma_visible_keeps(es, username, access, e);
    }
}

proof fn lemma_visible_keeps(es: Seq<RepoEntryView>, username: Seq<char>, access: TreeAccessView, e: RepoEntryView)
    requires
        es.contains(e),
        entry_visible(e.path, username, access),
    ensures
        visible_entries(es, username, access).contains(e),
    decreases es.len(),
{
    let r = visible_entries(es.drop_last(), username, access);
    if es.last() == e {
        assert(visible_entries(es, username, access) == r.push(e));
        assert(r.push(e)[r.len() as int] == e);
    } else {
        let j = choose|j: int| 0 <= j < es.len() && es[j] == e;
        assert(j < es.len() - 1);
        assert(es.drop_last()[j] == e);
        lemma_visible_keeps(es.drop_last(), username, access, e);
        let k = choose|k: int| 0 <= k < r.len() && r[k] == e;
        if entry_visible(es.last().path, username, access) {
            assert(visible_entries(es, username, access) == r.push(es.last()));
            assert(r.push(es.last())[k] == e);
        }
    }
}

/// An administrator is shown every scanned entry, in scan order, and nobody
/// signed out is shown anything.
pub proof fn law_admin_sees_all(es: Seq<RepoEntryView>, username: Seq<char>, access: TreeAccessView)
    ensures
        shown_entries(es, Some((username, true)), access) == es,
        shown_entries(es, None, access) == Seq::<RepoEntryView>::empty(),
{
}

/// What a signed-in user who is not an administrator is shown, entry by
/// entry: a scanned entry is in their tree exactly when its path
/// - is their own folder or lies below it, or
/// - is one of the group or repository paths they were given, or a
///   directory above one of them (so that the way down to it shows), or
/// - lies below a group they are a member of: anything below it when they
///   may see subgroups, else only a repository (`.git`) directly in it.
pub proof fn law_shown_to_member(
    es: Seq<RepoEntryView>,
    username: Seq<char>,
    access: TreeAccessView,
    e: RepoEntryView,
)
    requires
        es.contains(e),
    ensures
        shown_entries(es, Some((username, false)), access).contains(e) <==> {
            let p = e.path;
            ||| p == username
            ||| has_prefix(p, username + "/"@)
            ||| exists|i: int| 0 <= i < access.groups.len() && (#[trigger] access.groups[i] == p || has_prefix(access.groups[i], p + "/"@))
            ||| exists|i: int| 0 <= i < access.repos.len() && (#[trigger] access.repos[i] == p || has_prefix(access.repos[i], p + "/"@))
            ||| exists|i: int| 0 <= i < access.member_groups.len() && {
                let g = #[trigger] access.member_groups[i];
                &&& has_prefix(p, g.0 + "/"@)
                &&& (g.1 || (!p.subrange(g.0.len() + 1int, p.len() as int).contains('/') && has_suffix(p, ".git"@)))
            }
        },
{
    reveal_strlit("/");
    reveal_strlit(".git");
    let p = e.path;
    assert(username + "/"@ =~= username.push('/'));
    assert(p + "/"@ =~= p.push('/'));
    assert(".git"@ =~= git_suffix());
    assert forall|g: Seq<char>| #[trigger] (g + "/"@) == g.push('/') by {
        assert(g + "/"@ =~= g.push('/'));
    }
    let gs = access.groups;
    let rs = access.repos;
    if gs.contains(p) {
        let i = choose|i: int| 0 <= i < gs.len() && gs[i] == p;
        assert(gs[i] == p);
    }
    if exists|i: int| 0 <= i < gs.len() && (#[trigger] gs[i] == p || has_prefix(gs[i], p + "/"@)) {
        let i = choose|i: int| 0 <= i < gs.len() && (#[trigger] gs[i] == p || has_prefix(gs[i], p + "/"@));
        if gs[i] != p {
            assert(has_prefix(gs[i], p.push('/')));
        }
    }
    if rs.contains(p) {
        let i = choose|i: int| 0 <= i < rs.len() && rs[i] == p;
        assert(rs[i] == p);
    }
    if exists|i: int| 0 <= i < rs.len() && (#[trigger] rs[i] == p || has_prefix(rs[i], p + "/"@)) {
        let i = choose|i: int| 0 <= i < rs.len() && (#[trigger] rs[i] == p || has_prefix(rs[i], p + "/"@));
        if rs[i] != p {
            assert(has_prefix(rs[i], p.push('/')));
        }
    }
    if entry_visible(p, username, access) {
        lemma_visible_keeps(es, username, access, e);
    }
    if visible_entries(es, username, access).contains(e) {
        lemma_visible_only(es, username, access, e);
    }
}

proof fn lemma_visible_only(es: Seq<RepoEntryView>, username: Seq<char>, access: TreeAccessView, e: RepoEntryView)
    requires
        visible_entries(es, username, access).contains(e),
    ensures
        entry_visible(e.path, username, access),
    decreases es.len(),
{
    if es.len() > 0 {
        let r = visible_entries(es.drop_last(), username, access);
        if r.contains(e) {
            lemma_visible_only(es.drop_last(), username, access, e);
        } else {
            let v = visible_entries(es, username, access);
            let k = choose|k: int| 0 <= k < v.len() && v[k] == e;
            if entry_visible(es.last().path, username, access) {
                assert(v == r.push(es.last()));
                if k < r.len() {
                    assert(r[k] == e);
                }
            } else {
                assert(v == r);
            }
        }
    }
}

} // verus!
