//! Reading what `git` prints about a repository: its default branch, its
//! branches and tags, the files of a tree with their last commits, the
//! README, and the content of a file.
use vstd::prelude::*;
use vstd::utf8::{valid_utf8, decode_utf8};
use crate::numfmt::{parse_unsigned, parse_unsigned_chars};
use crate::text::{
    has_prefix, trim_spec, trim_start_matches_spec, lines_spec, split_on, words, join_with,
    seq_less, views, chars_of, string_of, trim_chars, trim_start_matches, lines_of, split_chars,
    split_whitespace_chars, join_all, starts_with, slice_chars, chars_eq, chars_less,
    append_chars, append_str, lemma_split_nonempty, lemma_less_irreflexive, lemma_less_transitive,
};

verus! {

/// What running a `git` command gave: whether it exited successfully and
/// its standard output (decoded leniently as UTF-8).
pub struct GitOutput {
    pub success: bool,
    pub stdout: String,
}

/// A tag of a repository.
pub struct TagInfo {
    pub name: String,
    pub commit: String,
    pub message: Option<String>,
    pub tagger: Option<String>,
    pub date: Option<String>,
}

/// One entry of a listed tree.
pub struct RepoFile {
    pub name: String,
    pub path: String,
    pub is_dir: bool,
    pub size: u64,
    pub commit_message: Option<String>,
    pub commit_date: Option<String>,
}

/// A line of `git ls-tree -l`, before its last commit is known.
pub struct TreeLine {
    pub name: String,
    pub path: String,
    pub is_dir: bool,
    pub size: u64,
}

/// The content of a file as shown in the browser.
pub struct FileContent {
    pub content: String,
    pub is_binary: bool,
    pub size: u64,
}

/// A plain optional string.
pub open spec fn opt_view(o: Option<String>) -> Option<Seq<char>> {
    match o {
        Some(s) => Some(s@),
        None => None,
    }
}

/// The output of a command that ran and succeeded.
pub open spec fn succeeded(o: Option<GitOutput>) -> bool {
    o matches Some(x) && x.success
}

/// The default branch: the branch `git symbolic-ref HEAD` names (its trimmed
/// output without `refs/heads/`); failing that, the first line of
/// `git branch`, trimmed and without a leading `* `. Nothing when the first
/// command could not be run.
pub open spec fn default_branch_spec(head: Option<GitOutput>, list: Option<GitOutput>) -> Option<
    Seq<char>,
> {
    match head {
        None => None,
        Some(h) => {
            let t = trim_spec(h.stdout@);
            if h.success && has_prefix(t, "refs/heads/"@) {
                Some(t.subrange(11, t.len() as int))
            } else {
                match list {
                    None => None,
                    Some(l) => if l.success && lines_spec(l.stdout@).len() > 0 {
                        Some(trim_start_matches_spec(trim_spec(lines_spec(l.stdout@)[0]), "* "@))
                    } else {
                        None
                    },
                }
            }
        },
    }
}

/// A line of `git branch -a` as a branch name.
pub open spec fn branch_name(line: Seq<char>) -> Seq<char> {
    trim_start_matches_spec(trim_spec(line), "* "@)
}

/// The branches `git branch -a` lists, one per line.
pub open spec fn branches_spec(out: Option<GitOutput>) -> Seq<Seq<char>> {
    if succeeded(out) {
        lines_spec(out->0.stdout@).map_values(|l: Seq<char>| branch_name(l))
    } else {
        Seq::<Seq<char>>::empty()
    }
}

/// The non-empty lines.
pub open spec fn nonempty(ls: Seq<Seq<char>>) -> Seq<Seq<char>>
    decreases ls.len(),
{
    if ls.len() == 0 {
        ls
    } else {
        let r = nonempty(ls.drop_last());
        if ls.last().len() > 0 {
            r.push(ls.last())
        } else {
            r
        }
    }
}

/// The tag names `git tag -l` lists.
pub open spec fn tag_names_spec(out: Option<GitOutput>) -> Seq<Seq<char>> {
    if succeeded(out) {
        nonempty(lines_spec(out->0.stdout@))
    } else {
        Seq::<Seq<char>>::empty()
    }
}

/// The plain value of a tag: name, commit, message, tagger, date.
pub type TagView = (Seq<char>, Seq<char>, Option<Seq<char>>, Option<Seq<char>>, Option<Seq<char>>);

/// The plain value of a [`TagInfo`].
pub open spec fn tag_view(t: TagInfo) -> TagView {
    (t.name@, t.commit@, opt_view(t.message), opt_view(t.tagger), opt_view(t.date))
}

/// The tag `name` as `git show -s --format=%H|%an|%ar|%s <name>` describes it:
/// the trimmed output split on `|` gives commit, tagger, date and message when
/// there are at least four pieces, else only the commit. No tag when the
/// command did not succeed.
pub open spec fn tag_spec(name: Seq<char>, show: Option<GitOutput>) -> Option<TagView> {
    if succeeded(show) {
        let parts = split_on(trim_spec(show->0.stdout@), '|');
        if parts.len() >= 4 {
            Some((name, parts[0], Some(parts[3]), Some(parts[1]), Some(parts[2])))
        } else {
            Some((name, parts[0], None, None, None))
        }
    } else {
        None
    }
}

/// The tags, in order, of the names whose description succeeded.
pub open spec fn tags_spec(names: Seq<Seq<char>>, shows: Seq<Option<GitOutput>>) -> Seq<TagView>
    decreases names.len(),
{
    if names.len() == 0 {
        Seq::<TagView>::empty()
    } else {
        let r = tags_spec(names.drop_last(), shows.take(names.len() - 1));
        match tag_spec(names.last(), shows[names.len() - 1]) {
            Some(t) => r.push(t),
            None => r,
        }
    }
}

/// The tree to list: the branch itself, or `branch:path` for a directory.
pub open spec fn tree_ref_spec(branch: Seq<char>, file_path: Seq<char>) -> Seq<char> {
    if file_path.len() == 0 {
        branch
    } else {
        branch.push(':') + file_path
    }
}

/// The plain value of a tree line: name, path, is-directory, size.
pub type TreeLineView = (Seq<char>, Seq<char>, bool, nat);

/// The plain value of a [`TreeLine`].
pub open spec fn tree_line_view(t: TreeLine) -> TreeLineView {
    (t.name@, t.path@, t.is_dir, t.size as nat)
}

/// A line of `git ls-tree -l` read as its words: a line of at least four
/// words names, from the fifth word on (joined with single spaces), a
/// directory when the second word is `tree` (size 0) or else a file whose
/// size is the fourth word (0 when it is no number).
pub open spec fn tree_line_spec(line: Seq<char>, file_path: Seq<char>) -> Option<TreeLineView> {
    let w = words(line);
    if w.len() >= 4 {
        let is_dir = w[1] == "tree"@;
        let size: nat = if is_dir {
            0
        } else {
            match parse_unsigned(w[3], 0xffff_ffff_ffff_ffff) {
                Some(v) => v,
                None => 0,
            }
        };
        let name = join_with(w.subrange(4, w.len() as int), ' ');
        let path = if file_path.len() == 0 {
            name
        } else {
            file_path.push('/') + name
        };
        Some((name, path, is_dir, size))
    } else {
        None
    }
}

/// The tree lines of all lines, in order.
pub open spec fn tree_lines_of(ls: Seq<Seq<char>>, file_path: Seq<char>) -> Seq<TreeLineView>
    decreases ls.len(),
{
    if ls.len() == 0 {
        Seq::<TreeLineView>::empty()
    } else {
        let r = tree_lines_of(ls.drop_last(), file_path);
        match tree_line_spec(ls.last(), file_path) {
            Some(t) => r.push(t),
            None => r,
        }
    }
}

/// The entries `git ls-tree -l <tree>` lists.
pub open spec fn tree_lines_spec(out: Option<GitOutput>, file_path: Seq<char>) -> Seq<TreeLineView> {
    if succeeded(out) {
        tree_lines_of(lines_spec(out->0.stdout@), file_path)
    } else {
        Seq::<TreeLineView>::empty()
    }
}

/// The last commit `git log -1 --format=%s|%ar` describes: subject and
/// relative date when the trimmed output splits on `|` into exactly two.
pub open spec fn last_commit_spec(out: Option<GitOutput>) -> (Option<Seq<char>>, Option<Seq<char>>) {
    if succeeded(out) {
        let parts = split_on(trim_spec(out->0.stdout@), '|');
        if parts.len() == 2 {
            (Some(parts[0]), Some(parts[1]))
        } else {
            (None, None)
        }
    } else {
        (None, None)
    }
}

/// The plain value of a listed file: name, path, is-directory, size,
/// commit subject, commit date.
pub type RepoFileView = (Seq<char>, Seq<char>, bool, nat, Option<Seq<char>>, Option<Seq<char>>);

/// The plain value of a [`RepoFile`].
pub open spec fn repo_file_view(f: RepoFile) -> RepoFileView {
    (f.name@, f.path@, f.is_dir, f.size as nat, opt_view(f.commit_message), opt_view(f.commit_date))
}

/// `a` is listed before `b`: directories before files, else by name.
pub open spec fn file_before(a: RepoFileView, b: RepoFileView) -> bool {
    (a.2 && !b.2) || (a.2 == b.2 && seq_less(a.0, b.0))
}

/// The first position in `r` of an entry that `x` goes before.
pub open spec fn insert_pos(r: Seq<RepoFileView>, x: RepoFileView) -> int
    decreases r.len(),
{
    if r.len() == 0 {
        0
    } else if file_before(x, r[0]) {
        0
    } else {
        1 + insert_pos(r.drop_first(), x)
    }
}

/// The files in listing order (a stable sort): each file is placed before the
/// first already-placed file it goes before.
pub open spec fn sorted_files(s: Seq<RepoFileView>) -> Seq<RepoFileView>
    decreases s.len(),
{
    if s.len() == 0 {
        s
    } else {
        let r = sorted_files(s.drop_last());
        r.insert(insert_pos(r, s.last()), s.last())
    }
}

/// The listed files with their last commits, before sorting.
pub open spec fn files_unsorted(
    lines: Seq<TreeLineView>,
    commits: Seq<Option<GitOutput>>,
) -> Seq<RepoFileView> {
    Seq::new(
        lines.len(),
        |i: int|
            (
                lines[i].0,
                lines[i].1,
                lines[i].2,
                lines[i].3,
                last_commit_spec(commits[i]).0,
                last_commit_spec(commits[i]).1,
            ),
    )
}

/// The README text: the output of the first of the candidate `git show`
/// runs that succeeded.
pub open spec fn readme_spec(outs: Seq<Option<GitOutput>>) -> Option<Seq<char>>
    decreases outs.len(),
{
    if outs.len() == 0 {
        None
    } else if succeeded(outs[0]) {
        Some(outs[0]->0.stdout@)
    } else {
        readme_spec(outs.drop_first())
    }
}

/// A file is shown as binary when one of its first 8000 bytes is zero.
pub open spec fn looks_binary(bytes: Seq<u8>) -> bool {
    exists|i: int| 0 <= i < bytes.len() && i < 8000 && bytes[i] == 0
}

/// What `String::from_utf8_lossy` gives for `bytes`.
pub uninterp spec fn utf8_lossy(bytes: Seq<u8>) -> Seq<char>;

/// `String::from_utf8_lossy(bytes)`: valid UTF-8 is decoded as is.
#[verifier::external_body]
fn lossy_string(bytes: &[u8]) -> (r: String)
    ensures
        r@ == utf8_lossy(bytes@),
        valid_utf8(bytes@) ==> r@ == decode_utf8(bytes@),
{
    String::from_utf8_lossy(bytes).to_string()
}

fn trimmed(s: &String) -> (r: Vec<char>)
    ensures
        r@ == trim_spec(s@),
{
    let c = chars_of(s.as_str());
    trim_chars(&c)
}

/// The default branch of a repository.
pub fn default_branch(head: Option<GitOutput>, list: Option<GitOutput>) -> (r: Option<String>)
    ensures
        opt_view(r) == default_branch_spec(head, list),
{
    match &head {
        None => None,
        Some(h) => {
            let t = trimmed(&h.stdout);
            let pre = chars_of("refs/heads/");
            proof {
                reveal_strlit("refs/heads/");
            }
            if h.success && starts_with(&t, &pre) {
                Some(string_of(&slice_chars(&t, 11, t.len())))
            } else {
                match &list {
                    None => None,
                    Some(l) => {
                        let c = chars_of(l.stdout.as_str());
                        let ls = lines_of(&c);
                        if l.success && ls.len() > 0 {
                            assert(views(ls@)[0] == ls@[0]@);
                            let first = trim_chars(&ls[0]);
                            let star = chars_of("* ");
                            proof {
                                reveal_strlit("* ");
                            }
                            Some(string_of(&trim_start_matches(&first, &star)))
                        } else {
                            None
                        }
                    },
                }
            }
        },
    }
}

/// The branches of a repository, from `git branch -a`.
pub fn branch_list(out: Option<GitOutput>) -> (r: Vec<String>)
    ensures
        crate::text::string_views(r@) == branches_spec(out),
{
    let mut r: Vec<String> = Vec::new();
    match &out {
        Some(o) => {
            if o.success {
                let c = chars_of(o.stdout.as_str());
                let ls = lines_of(&c);
                let star = chars_of("* ");
                proof {
                    reveal_strlit("* ");
                }
                let ghost want = branches_spec(out);
                let mut i: usize = 0;
                while i < ls.len()
                    invariant
                        i <= ls.len(),
                        star@ == "* "@,
                        star.len() == 2,
                        want == views(ls@).map_values(|l: Seq<char>| branch_name(l)),
                        crate::text::string_views(r@) == want.take(i as int),
                    decreases ls.len() - i,
                {
                    let t = trim_chars(&ls[i]);
                    let b = trim_start_matches(&t, &star);
                    let ghost before = crate::text::string_views(r@);
                    r.push(string_of(&b));
                    assert(views(ls@)[i as int] == ls@[i as int]@);
                    assert(crate::text::string_views(r@) =~= before.push(want[i as int]));
                    assert(want.take(i as int).push(want[i as int]) =~= want.take(i + 1));
                    i += 1;
                }
                assert(want.take(ls.len() as int) =~= want);
            }
        },
        None => {},
    }
    assert(crate::text::string_views(r@) =~= branches_spec(out)) by {
        if !succeeded(out) {
            assert(r@.len() == 0);
        }
    }
    r
}

/// The tag names of a repository, from `git tag -l`.
pub fn tag_names(out: Option<GitOutput>) -> (r: Vec<String>)
    ensures
        crate::text::string_views(r@) == tag_names_spec(out),
{
    let mut r: Vec<String> = Vec::new();
    if let Some(o) = &out {
        if o.success {
            let c = chars_of(o.stdout.as_str());
            let ls = lines_of(&c);
            let mut i: usize = 0;
            assert(views(ls@).take(0) =~= Seq::<Seq<char>>::empty());
            while i < ls.len()
                invariant
                    i <= ls.len(),
                    crate::text::string_views(r@) == nonempty(views(ls@).take(i as int)),
                decreases ls.len() - i,
            {
                let ghost before = crate::text::string_views(r@);
                assert(views(ls@).take(i + 1).drop_last() =~= views(ls@).take(i as int));
                assert(views(ls@).take(i + 1).last() == ls@[i as int]@);
                if ls[i].len() > 0 {
                    r.push(string_of(&ls[i]));
                    assert(crate::text::string_views(r@) =~= before.push(ls@[i as int]@));
                }
                i += 1;
            }
            assert(views(ls@).take(ls.len() as int) =~= views(ls@));
        }
    }
    assert(crate::text::string_views(r@) =~= tag_names_spec(out)) by {
        if !succeeded(out) {
            assert(r@.len() == 0);
        }
    }
    r
}

fn describe_tag(name: &String, show: &Option<GitOutput>) -> (r: Option<TagInfo>)
    ensures
        r matches Some(t) ==> tag_spec(name@, *show) == Some(tag_view(t)),
        r is None ==> tag_spec(name@, *show) is None,
{
    match show {
        Some(o) => {
            if o.success {
                let t = trimmed(&o.stdout);
                let parts = split_chars(&t, '|');
                proof {
                    lemma_split_nonempty(t@, '|');
                }
                assert(views(parts@)[0] == parts@[0]@);
                if parts.len() >= 4 {
                    assert(views(parts@)[1] == parts@[1]@);
                    assert(views(parts@)[2] == parts@[2]@);
                    assert(views(parts@)[3] == parts@[3]@);
                    Some(
                        TagInfo {
                            name: name.clone(),
                            commit: string_of(&parts[0]),
                            tagger: Some(string_of(&parts[1])),
                            date: Some(string_of(&parts[2])),
                            message: Some(string_of(&parts[3])),
                        },
                    )
                } else {
                    Some(
                        TagInfo {
                            name: name.clone(),
                            commit: string_of(&parts[0]),
                            tagger: None,
                            date: None,
                            message: None,
                        },
                    )
                }
            } else {
                None
            }
        },
        None => None,
    }
}

/// The tags of a repository: `names` from `git tag -l`, and for each the
/// outcome of `git show -s --format=%H|%an|%ar|%s <name>`.
pub fn tags_from(names: &Vec<String>, shows: &Vec<Option<GitOutput>>) -> (r: Vec<TagInfo>)
    requires
        shows.len() == names.len(),
    ensures
        r@.map_values(|t: TagInfo| tag_view(t)) == tags_spec(
            crate::text::string_views(names@),
            shows@,
        ),
{
    let ghost ns = crate::text::string_views(names@);
    let mut r: Vec<TagInfo> = Vec::new();
    let mut i: usize = 0;
    assert(r@.map_values(|t: TagInfo| tag_view(t)) =~= tags_spec(ns.take(0), shows@.take(0)));
    while i < names.len()
        invariant
            i <= names.len(),
            shows.len() == names.len(),
            ns == crate::text::string_views(names@),
            r@.map_values(|t: TagInfo| tag_view(t)) == tags_spec(ns.take(i as int), shows@.take(i as int)),
        decreases names.len() - i,
    {
        let ghost before = r@.map_values(|t: TagInfo| tag_view(t));
        let ghost ti = ns.take(i + 1);
        assert(ti.drop_last() =~= ns.take(i as int));
        assert(shows@.take(i + 1).take(i as int) =~= shows@.take(i as int));
        assert(ti.last() == names@[i as int]@);
        assert(shows@.take(i + 1)[i as int] == shows@[i as int]);
        match describe_tag(&names[i], &shows[i]) {
            Some(t) => {
                r.push(t);
                assert(r@.map_values(|t: TagInfo| tag_view(t)) =~= before.push(tag_view(t)));
            },
            None => {},
        }
        i += 1;
    }
    assert(ns.take(names.len() as int) =~= ns);
    assert(shows@.take(names.len() as int) =~= shows@);
    r
}

/// The tree to list for a branch and a directory path (empty for the root).
pub fn tree_ref(branch: &str, file_path: &str) -> (r: String)
    ensures
        r@ == tree_ref_spec(branch@, file_path@),
{
    if file_path.is_empty() {
        String::from_str(branch)
    } else {
        let mut v = chars_of(branch);
        v.push(':');
        append_str(&mut v, file_path);
        string_of(&v)
    }
}

fn tree_line(line: &Vec<char>, file_path: &Vec<char>) -> (r: Option<TreeLine>)
    ensures
        r matches Some(t) ==> tree_line_spec(line@, file_path@) == Some(tree_line_view(t)),
        r is None ==> tree_line_spec(line@, file_path@) is None,
{
    let w = split_whitespace_chars(line);
    if w.len() >= 4 {
        let tree = chars_of("tree");
        assert(views(w@)[1] == w@[1]@);
        assert(views(w@)[3] == w@[3]@);
        let is_dir = chars_eq(&w[1], &tree);
        let size: u64 = if is_dir {
            0
        } else {
            match parse_unsigned_chars(&w[3], 0xffff_ffff_ffff_ffff) {
                Some(v) => v,
                None => 0,
            }
        };
        let mut rest: Vec<Vec<char>> = Vec::new();
        let mut k: usize = 4;
        while k < w.len()
            invariant
                4 <= k <= w.len(),
                views(rest@) == views(w@).subrange(4, k as int),
            decreases w.len() - k,
        {
            let ghost before = views(rest@);
            rest.push(slice_chars(&w[k], 0, w[k].len()));
            assert(w@[k as int]@.subrange(0, w@[k as int]@.len() as int) =~= w@[k as int]@);
            assert(views(rest@) =~= before.push(views(w@)[k as int]));
            assert(views(w@).subrange(4, k as int).push(views(w@)[k as int]) =~= views(w@).subrange(
                4,
                k + 1,
            ));
            k += 1;
        }
        let name = join_all(&rest, ' ');
        let path = if file_path.len() == 0 {
            slice_chars(&name, 0, name.len())
        } else {
            let mut p = slice_chars(file_path, 0, file_path.len());
            p.push('/');
            append_chars(&mut p, &name);
            p
        };
        proof {
            assert(name@.subrange(0, name@.len() as int) =~= name@);
            assert(file_path@.subrange(0, file_path@.len() as int) =~= file_path@);
        }
        Some(TreeLine { name: string_of(&name), path: string_of(&path), is_dir, size })
    } else {
        None
    }
}

/// The entries of a listed tree, from `git ls-tree -l`, with their paths
/// inside the directory `file_path` (empty for the root).
pub fn tree_lines(out: Option<GitOutput>, file_path: &str) -> (r: Vec<TreeLine>)
    ensures
        r@.map_values(|t: TreeLine| tree_line_view(t)) == tree_lines_spec(out, file_path@),
{
    let mut r: Vec<TreeLine> = Vec::new();
    let fp = chars_of(file_path);
    if let Some(o) = &out {
        if o.success {
            let c = chars_of(o.stdout.as_str());
            let ls = lines_of(&c);
            let mut i: usize = 0;
            assert(views(ls@).take(0) =~= Seq::<Seq<char>>::empty());
            assert(r@.map_values(|t: TreeLine| tree_line_view(t)) =~= Seq::<TreeLineView>::empty());
            while i < ls.len()
                invariant
                    i <= ls.len(),
                    fp@ == file_path@,
                    r@.map_values(|t: TreeLine| tree_line_view(t)) == tree_lines_of(
                        views(ls@).take(i as int),
                        file_path@,
                    ),
                decreases ls.len() - i,
            {
                let ghost before = r@.map_values(|t: TreeLine| tree_line_view(t));
                assert(views(ls@).take(i + 1).drop_last() =~= views(ls@).take(i as int));
                assert(views(ls@).take(i + 1).last() == ls@[i as int]@);
                match tree_line(&ls[i], &fp) {
                    Some(t) => {
                        r.push(t);
                        assert(r@.map_values(|t: TreeLine| tree_line_view(t)) =~= before.push(
                            tree_line_view(t),
                        ));
                    },
                    None => {},
                }
                i += 1;
            }
            assert(views(ls@).take(ls.len() as int) =~= views(ls@));
        }
    }
    proof {
        if !succeeded(out) {
            assert(r@.map_values(|t: TreeLine| tree_line_view(t)) =~= Seq::<TreeLineView>::empty());
        }
    }
    r
}

/// The last commit of a file or branch.
pub fn last_commit(out: &Option<GitOutput>) -> (r: (Option<String>, Option<String>))
    ensures
        (opt_view(r.0), opt_view(r.1)) == last_commit_spec(*out),
{
    match out {
        Some(o) => {
            if o.success {
                let t = trimmed(&o.stdout);
                let parts = split_chars(&t, '|');
                if parts.len() == 2 {
                    assert(views(parts@)[0] == parts@[0]@);
                    assert(views(parts@)[1] == parts@[1]@);
                    (Some(string_of(&parts[0])), Some(string_of(&parts[1])))
                } else {
                    (None, None)
                }
            } else {
                (None, None)
            }
        },
        None => (None, None),
    }
}

fn file_before_exec(a: &RepoFile, b: &RepoFile) -> (r: bool)
    ensures
        r == file_before(repo_file_view(*a), repo_file_view(*b)),
{
    if a.is_dir && !b.is_dir {
        true
    } else if a.is_dir == b.is_dir {
        let an = chars_of(a.name.as_str());
        let bn = chars_of(b.name.as_str());
        chars_less(&an, &bn)
    } else {
        false
    }
}

/// The listed files with their last commits, directories first and then by name.
pub fn files_from(lines: Vec<TreeLine>, commits: &Vec<Option<GitOutput>>) -> (r: Vec<RepoFile>)
    requires
        commits.len() == lines.len(),
    ensures
        r@.map_values(|f: RepoFile| repo_file_view(f)) == sorted_files(
            files_unsorted(lines@.map_values(|t: TreeLine| tree_line_view(t)), commits@),
        ),
{
    let ghost src = files_unsorted(lines@.map_values(|t: TreeLine| tree_line_view(t)), commits@);
    let mut sorted: Vec<RepoFile> = Vec::new();
    let mut i: usize = 0;
    assert(src.take(0) =~= Seq::<RepoFileView>::empty());
    assert(sorted@.map_values(|f: RepoFile| repo_file_view(f)) =~= Seq::<RepoFileView>::empty());
    while i < lines.len()
        invariant
            i <= lines.len(),
            commits.len() == lines.len(),
            src == files_unsorted(lines@.map_values(|t: TreeLine| tree_line_view(t)), commits@),
            sorted@.map_values(|f: RepoFile| repo_file_view(f)) == sorted_files(src.take(i as int)),
        decreases lines.len() - i,
    {
        let t = &lines[i];
        let (m, d) = last_commit(&commits[i]);
        let f = RepoFile {
            name: t.name.clone(),
            path: t.path.clone(),
            is_dir: t.is_dir,
            size: t.size,
            commit_message: m,
            commit_date: d,
        };
        assert(repo_file_view(f) == src[i as int]);
        assert(src.take(i + 1).drop_last() =~= src.take(i as int));
        assert(src.take(i + 1).last() == src[i as int]);
        let ghost cur = sorted@.map_values(|f: RepoFile| repo_file_view(f));
        assert(cur.subrange(0, cur.len() as int) =~= cur);
        // The first position whose file `f` goes before.
        let mut j: usize = 0;
        while j < sorted.len() && !file_before_exec(&f, &sorted[j])
            invariant
                j <= sorted.len(),
                cur == sorted@.map_values(|f: RepoFile| repo_file_view(f)),
                insert_pos(cur, repo_file_view(f)) == j + insert_pos(
                    cur.subrange(j as int, cur.len() as int),
                    repo_file_view(f),
                ),
            decreases sorted.len() - j,
        {
            let ghost rest = cur.subrange(j as int, cur.len() as int);
            assert(rest[0] == repo_file_view(sorted@[j as int]));
            assert(rest.drop_first() =~= cur.subrange(j + 1, cur.len() as int));
            j += 1;
        }
        proof {
            let rest = cur.subrange(j as int, cur.len() as int);
            if j < sorted.len() {
                assert(rest[0] == repo_file_view(sorted@[j as int]));
            }
            assert(insert_pos(rest, repo_file_view(f)) == 0);
        }
        sorted.insert(j, f);
        assert(sorted@.map_values(|f: RepoFile| repo_file_view(f)) =~= cur.insert(
            j as int,
            src[i as int],
        ));
        i += 1;
    }
    assert(src.take(lines.len() as int) =~= src);
    sorted
}

/// The README files tried, in order.
pub fn readme_candidates() -> (r: Vec<String>)
    ensures
        crate::text::string_views(r@) == seq!["README.md"@, "README"@, "readme.md"@, "Readme.md"@],
{
    let r = vec![
        String::from_str("README.md"),
        String::from_str("README"),
        String::from_str("readme.md"),
        String::from_str("Readme.md"),
    ];
    assert(crate::text::string_views(r@) =~= seq!["README.md"@, "README"@, "readme.md"@, "Readme.md"@]);
    r
}

/// The README text, from the outcomes of `git show <branch>:<candidate>`.
pub fn readme_from(outs: &Vec<Option<GitOutput>>) -> (r: Option<String>)
    ensures
        opt_view(r) == readme_spec(outs@),
{
    let mut i: usize = 0;
    assert(outs@.subrange(0, outs@.len() as int) =~= outs@);
    while i < outs.len()
        invariant
            i <= outs.len(),
            readme_spec(outs@) == readme_spec(outs@.subrange(i as int, outs@.len() as int)),
        decreases outs.len() - i,
    {
        let ghost rest = outs@.subrange(i as int, outs@.len() as int);
        assert(rest[0] == outs@[i as int]);
        match &outs[i] {
            Some(o) => {
                if o.success {
                    return Some(o.stdout.clone());
                }
            },
            None => {},
        }
        assert(rest.drop_first() =~= outs@.subrange(i + 1, outs@.len() as int));
        i += 1;
    }
    None
}

/// The content of a file as `git show <branch>:<file>` printed it: text
/// when none of its first 8000 bytes is zero, else marked binary.
pub fn file_content(bytes: &Vec<u8>) -> (r: FileContent)
    ensures
        r.is_binary == looks_binary(bytes@),
        r.size == bytes.len(),
        r.is_binary ==> r.content@ == "[Binary file]"@,
        !r.is_binary ==> r.content@ == utf8_lossy(bytes@),
{
    let mut i: usize = 0;
    while i < bytes.len() && i < 8000 && bytes[i] != 0
        invariant
            i <= bytes.len(),
            i <= 8000,
            forall|k: int| 0 <= k < i ==> bytes@[k] != 0,
        decreases bytes.len() - i,
    {
        i += 1;
    }
    let binary = i < bytes.len() && i < 8000;
    proof {
        if binary {
            assert(bytes@[i as int] == 0);
        } else {
            assert forall|k: int| 0 <= k < bytes.len() && k < 8000 implies bytes@[k] != 0 by {}
        }
    }
    if binary {
        FileContent { content: String::from_str("[Binary file]"), is_binary: true, size: bytes.len() as u64 }
    } else {
        FileContent {
            content: lossy_string(bytes.as_slice()),
            is_binary: false,
            size: bytes.len() as u64,
        }
    }
}

/// No entry of `s` goes before an entry listed ahead of it.
pub open spec fn listing_ordered(s: Seq<RepoFileView>) -> bool {
    forall|i: int, j: int| 0 <= i < j < s.len() ==> !file_before(#[trigger] s[j], #[trigger] s[i])
}

proof fn lemma_before_irreflexive(a: RepoFileView)
    ensures
        !file_before(a, a),
{
    lemma_less_irreflexive(a.0);
}

proof fn lemma_before_transitive(a: RepoFileView, b: RepoFileView, c: RepoFileView)
    requires
        file_before(a, b),
        file_before(b, c),
    ensures
        file_before(a, c),
{
    if a.2 == b.2 && b.2 == c.2 {
        lemma_less_transitive(a.0, b.0, c.0);
    }
}

proof fn lemma_insert_pos(r: Seq<RepoFileView>, x: RepoFileView)
    ensures
        0 <= insert_pos(r, x) <= r.len(),
        forall|k: int| 0 <= k < insert_pos(r, x) ==> !file_before(x, #[trigger] r[k]),
        insert_pos(r, x) < r.len() ==> file_before(x, r[insert_pos(r, x)]),
    decreases r.len(),
{
    if r.len() > 0 && !file_before(x, r[0]) {
        lemma_insert_pos(r.drop_first(), x);
        assert forall|k: int| 0 <= k < insert_pos(r, x) implies !file_before(x, #[trigger] r[k]) by {
            if k > 0 {
                assert(r[k] == r.drop_first()[k - 1]);
            }
        }
    }
}

/// A file listing comes out ordered, directories first and then by name,
/// and holds exactly the listed files: `sorted_files` puts its input in
/// order without losing or adding an entry.
pub proof fn law_listing_sorted(s: Seq<RepoFileView>)
    ensures
        listing_ordered(sorted_files(s)),
        sorted_files(s).to_multiset() == s.to_multiset(),
    decreases s.len(),
{
    broadcast use vstd::seq_lib::group_to_multiset_ensures;
    if s.len() > 0 {
        law_listing_sorted(s.drop_last());
        let r = sorted_files(s.drop_last());
        let x = s.last();
        let p = insert_pos(r, x);
        lemma_insert_pos(r, x);
        let t = r.insert(p, x);
        assert(t.len() == r.len() + 1);
        assert forall|i: int, j: int| 0 <= i < j < t.len() implies !file_before(#[trigger] t[j], #[trigger] t[i]) by {
            if j < p {
                assert(t[i] == r[i] && t[j] == r[j]);
            } else if j == p {
                assert(t[j] == x);
                assert(t[i] == r[i]);
            } else if i == p {
                assert(t[i] == x);
                assert(t[j] == r[j - 1]);
                if file_before(r[j - 1], x) {
                    lemma_before_transitive(r[j - 1], x, r[p]);
                    if j - 1 == p {
                        lemma_before_irreflexive(r[p]);
                    }
                }
            } else if i < p {
                assert(t[i] == r[i] && t[j] == r[j - 1]);
            } else {
                assert(t[i] == r[i - 1] && t[j] == r[j - 1]);
            }
        }
        vstd::seq_lib::to_multiset_insert(r, p, x);
        assert(s =~= s.drop_last().push(x));
        assert(s.to_multiset() =~= s.drop_last().to_multiset().insert(x));
    }
}

/// Where each listed entry lives: listing the repository root (an empty
/// `file_path`), an entry's path is its name; listing a directory, it is
/// the directory, a `/`, then the name.
pub proof fn law_tree_line_paths(out: Option<GitOutput>, file_path: Seq<char>)
    ensures
        forall|i: int| 0 <= i < tree_lines_spec(out, file_path).len() ==> {
            let t = #[trigger] tree_lines_spec(out, file_path)[i];
            &&& file_path.len() == 0 ==> t.1 == t.0
            &&& file_path.len() > 0 ==> t.1 == file_path + "/"@ + t.0
        },
{
    reveal_strlit("/");
    assert(file_path + "/"@ =~= file_path.push('/'));
    if succeeded(out) {
        lemma_tree_line_paths(lines_spec(out->0.stdout@), file_path);
    }
}

proof fn lemma_tree_line_paths(ls: Seq<Seq<char>>, file_path: Seq<char>)
    ensures
        forall|i: int| 0 <= i < tree_lines_of(ls, file_path).len() ==> {
            let t = #[trigger] tree_lines_of(ls, file_path)[i];
            &&& file_path.len() == 0 ==> t.1 == t.0
            &&& file_path.len() > 0 ==> t.1 == file_path.push('/') + t.0
        },
    decreases ls.len(),
{
    if ls.len() > 0 {
        lemma_tree_line_paths(ls.drop_last(), file_path);
        let r = tree_lines_of(ls.drop_last(), file_path);
        match tree_line_spec(ls.last(), file_path) {
            Some(t) => {
                assert forall|i: int| 0 <= i < r.push(t).len() implies {
                    let u = #[trigger] r.push(t)[i];
                    &&& file_path.len() == 0 ==> u.1 == u.0
                    &&& file_path.len() > 0 ==> u.1 == file_path.push('/') + u.0
                } by {
                    if i < r.len() {
                        assert(r.push(t)[i] == r[i]);
                    }
                }
            },
            None => {},
        }
    }
}

} // verus!
