//! Walking the repository root: which directories are groups, which are
//! repositories, and the slash-separated path of each.
//!
//! The directory listing itself is read by the caller into [`FsNode`]s; the
//! caller descends only into directories for which [`should_descend`] holds.
use vstd::prelude::*;
use crate::text::{append_chars, chars_eq, chars_of, ends_with, has_suffix, slice_chars, string_of};

verus! {

/// One directory entry found under the repository root.
pub struct RepoEntry {
    pub name: String,
    pub path: String,
    pub is_repo: bool,
}

/// The plain value of a [`RepoEntry`].
pub struct RepoEntryView {
    pub name: Seq<char>,
    pub path: Seq<char>,
    pub is_repo: bool,
}

impl View for RepoEntry {
    type V = RepoEntryView;

    open spec fn view(&self) -> RepoEntryView {
        RepoEntryView { name: self.name@, path: self.path@, is_repo: self.is_repo }
    }
}

/// The views of a sequence of entries.
pub open spec fn entry_views(v: Seq<RepoEntry>) -> Seq<RepoEntryView> {
    v.map_values(|e: RepoEntry| e@)
}

/// One item of a directory listing, in the order the listing returned it.
/// `children` is the listing of the item when it is a directory that was read.
pub struct FsNode {
    pub name: String,
    pub is_dir: bool,
    pub children: Vec<FsNode>,
}

/// Scans the directory tree under a repository root.
pub struct RepoScanner {
    repos_path: String,
}

/// The name of the per-group metadata directory, which is never listed.
pub open spec fn meta_name() -> Seq<char> {
    seq!['.', 'm', 'e', 't', 'a']
}

/// The suffix that marks a directory as a repository.
pub open spec fn git_suffix() -> Seq<char> {
    seq!['.', 'g', 'i', 't']
}

/// The path of `name` inside the directory at relative path `rel`.
pub open spec fn child_path(rel: Seq<char>, name: Seq<char>) -> Seq<char> {
    if rel.len() == 0 {
        name
    } else {
        rel.push('/') + name
    }
}

/// The entries a scan of `nodes`, found at relative path `rel`, reports:
/// in listing order, each directory other than `.meta` is reported; a
/// directory whose name ends with `.git` is a repository and is not entered,
/// any other directory is a group, reported before what lies under it.
pub open spec fn scan_spec(nodes: Seq<FsNode>, rel: Seq<char>) -> Seq<RepoEntryView>
    decreases nodes,
{
    if nodes.len() == 0 {
        Seq::<RepoEntryView>::empty()
    } else {
        let n = nodes.last();
        let before = scan_spec(nodes.drop_last(), rel);
        let cur = child_path(rel, n.name@);
        if n.name@ == meta_name() || !n.is_dir {
            before
        } else if has_suffix(n.name@, git_suffix()) {
            before.push(RepoEntryView { name: n.name@, path: cur, is_repo: true })
        } else {
            proof {
                assert(decreases_to!(nodes => nodes[nodes.len() - 1]));
                assert(decreases_to!(nodes[nodes.len() - 1] => nodes[nodes.len() - 1].children));
            }
            before.push(RepoEntryView { name: n.name@, path: cur, is_repo: false }) + scan_spec(
                n.children@,
                cur,
            )
        }
    }
}

/// Whether a directory with this name is entered by the scan.
pub fn should_descend(name: &str) -> (r: bool)
    ensures
        r == (name@ != meta_name() && !has_suffix(name@, git_suffix())),
{
    let n = chars_of(name);
    let meta = vec!['.', 'm', 'e', 't', 'a'];
    let git = vec!['.', 'g', 'i', 't'];
    assert(meta@ == meta_name());
    assert(git@ == git_suffix());
    !chars_eq(&n, &meta) && !ends_with(&n, &git)
}

/// The path of `name` inside `rel`.
pub fn join_relative(rel: &Vec<char>, name: &Vec<char>) -> (r: Vec<char>)
    ensures
        r@ == child_path(rel@, name@),
{
    if rel.len() == 0 {
        slice_chars(name, 0, name.len())
    } else {
        let mut r = slice_chars(rel, 0, rel.len());
        r.push('/');
        append_chars(&mut r, name);
        r
    }
}

fn scan_level(nodes: &Vec<FsNode>, rel: &Vec<char>, out: &mut Vec<RepoEntry>)
    ensures
        entry_views(final(out)@) == entry_views(old(out)@) + scan_spec(nodes@, rel@),
    decreases nodes@,
{
    let ghost start = entry_views(out@);
    let meta = vec!['.', 'm', 'e', 't', 'a'];
    let git = vec!['.', 'g', 'i', 't'];
    assert(meta@ == meta_name());
    assert(git@ == git_suffix());
    let mut i: usize = 0;
    while i < nodes.len()
        invariant
            i <= nodes.len(),
            meta@ == meta_name(),
            git@ == git_suffix(),
            entry_views(out@) == start + scan_spec(nodes@.take(i as int), rel@),
        decreases nodes.len() - i,
    {
        let node = &nodes[i];
        let ghost prev = entry_views(out@);
        assert(nodes@.take(i + 1).drop_last() =~= nodes@.take(i as int));
        assert(nodes@.take(i + 1).last() == *node);
        let name = chars_of(node.name.as_str());
        if chars_eq(&name, &meta) || !node.is_dir {
        } else {
            let cur = join_relative(rel, &name);
            if ends_with(&name, &git) {
                out.push(RepoEntry { name: string_of(&name), path: string_of(&cur), is_repo: true });
                assert(entry_views(out@) =~= prev.push(
                    RepoEntryView { name: node.name@, path: cur@, is_repo: true },
                ));
            } else {
                out.push(RepoEntry { name: string_of(&name), path: string_of(&cur), is_repo: false });
                let ghost mid = entry_views(out@);
                assert(mid =~= prev.push(
                    RepoEntryView { name: node.name@, path: cur@, is_repo: false },
                ));
                assert(decreases_to!(nodes@ => nodes@[i as int]));
                assert(decreases_to!(nodes@[i as int] => nodes@[i as int].children));
                assert(decreases_to!(nodes@[i as int].children => nodes@[i as int].children@));
                scan_level(&node.children, &cur, out);
                assert(entry_views(out@) =~= prev.push(
                    RepoEntryView { name: node.name@, path: cur@, is_repo: false },
                ) + scan_spec(node.children@, cur@));
            }
        }
        i += 1;
    }
    assert(nodes@.take(nodes.len() as int) =~= nodes@);
}

impl RepoScanner {
    /// A scanner rooted at `repos_path`.
    pub fn new(repos_path: String) -> (r: RepoScanner)
        ensures
            r.root() == repos_path@,
    {
        RepoScanner { repos_path }
    }

    /// The root directory, as a plain value.
    pub closed spec fn root(&self) -> Seq<char> {
        self.repos_path@
    }

    /// The root directory.
    pub fn repos_path(&self) -> (r: &str)
        ensures
            r@ == self.root(),
    {
        self.repos_path.as_str()
    }

    /// The entries under the root, given the listing of the root.
    pub fn scan_directory(&self, listing: &Vec<FsNode>) -> (r: Vec<RepoEntry>)
        ensures
            entry_views(r@) == scan_spec(listing@, Seq::<char>::empty()),
    {
        let mut entries: Vec<RepoEntry> = Vec::new();
        let rel: Vec<char> = Vec::new();
        scan_level(listing, &rel, &mut entries);
        assert(entry_views(Seq::<RepoEntry>::empty()) =~= Seq::<RepoEntryView>::empty());
        entries
    }
}

} // verus!
