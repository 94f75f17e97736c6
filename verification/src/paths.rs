//! Slash-separated paths: joining a path under a directory as `Path::join`
//! does on Unix, and the pieces of a repository or group path.
use vstd::prelude::*;
use crate::text::{
    split_on, join_with, views, chars_of, string_of, split_chars, join_prefix, append_chars,
    slice_chars, lemma_split_nonempty, trim_start_matches_spec, trim_start_matches,
};

verus! {

/// `base.join(p)` on Unix: an absolute `p` replaces `base`; otherwise `p` is
/// appended, with a `/` between them unless `base` is empty or ends with one.
pub open spec fn join_path(base: Seq<char>, p: Seq<char>) -> Seq<char> {
    if p.len() > 0 && p[0] == '/' {
        p
    } else if base.len() == 0 || base.last() == '/' {
        base + p
    } else {
        base.push('/') + p
    }
}

/// The last `/`-separated piece of `path`.
pub open spec fn last_segment(path: Seq<char>) -> Seq<char> {
    split_on(path, '/').last()
}

/// The pieces before the last one, joined with `/` again; `None` when the
/// path has no `/`.
pub open spec fn parent_segments(path: Seq<char>) -> Option<Seq<char>> {
    let parts = split_on(path, '/');
    if parts.len() == 1 {
        None
    } else {
        Some(join_with(parts.drop_last(), '/'))
    }
}

/// The first `/`-separated piece of `path`.
pub open spec fn first_segment(path: Seq<char>) -> Seq<char> {
    split_on(path, '/')[0]
}

/// `path` without its leading slashes.
pub open spec fn without_leading_slashes(path: Seq<char>) -> Seq<char> {
    trim_start_matches_spec(path, seq!['/'])
}

/// `base.join(p)`.
pub fn join_paths(base: &str, p: &str) -> (r: String)
    ensures
        r@ == join_path(base@, p@),
{
    let b = chars_of(base);
    let q = chars_of(p);
    if q.len() > 0 && q[0] == '/' {
        return string_of(&q);
    }
    let mut r = slice_chars(&b, 0, b.len());
    assert(r@ =~= b@);
    if !(b.len() == 0 || b[b.len() - 1] == '/') {
        r.push('/');
    }
    append_chars(&mut r, &q);
    proof {
        if b@.len() > 0 {
            assert(b@.last() == b@[b.len() - 1]);
        }
    }
    string_of(&r)
}

/// `path.trim_start_matches('/')`.
pub fn trim_leading_slashes(path: &str) -> (r: String)
    ensures
        r@ == without_leading_slashes(path@),
{
    let p = chars_of(path);
    let slash = vec!['/'];
    assert(slash@ =~= seq!['/']);
    let t = trim_start_matches(&p, &slash);
    string_of(&t)
}

/// The pieces of `path` split on `/`.
pub fn segments(path: &str) -> (r: Vec<Vec<char>>)
    ensures
        views(r@) == split_on(path@, '/'),
        r.len() >= 1,
{
    let p = chars_of(path);
    proof {
        lemma_split_nonempty(path@, '/');
    }
    split_chars(&p, '/')
}

/// `path.split('/').last()`.
pub fn last_segment_of(path: &str) -> (r: String)
    ensures
        r@ == last_segment(path@),
{
    let parts = segments(path);
    let last = &parts[parts.len() - 1];
    assert(views(parts@)[parts.len() - 1] == last@);
    string_of(last)
}

/// `path.split('/').next()`.
pub fn first_segment_of(path: &str) -> (r: String)
    ensures
        r@ == first_segment(path@),
{
    let parts = segments(path);
    assert(views(parts@)[0] == parts@[0]@);
    string_of(&parts[0])
}

/// The parent of a slash-separated path, as `parts[..len - 1].join("/")`.
pub fn parent_segments_of(path: &str) -> (r: Option<String>)
    ensures
        r matches Some(v) ==> parent_segments(path@) == Some(v@),
        r is None ==> parent_segments(path@) is None,
{
    let parts = segments(path);
    if parts.len() == 1 {
        None
    } else {
        let j = join_prefix(&parts, parts.len() - 1, '/');
        assert(views(parts@).take(parts.len() - 1) =~= split_on(path@, '/').drop_last());
        Some(string_of(&j))
    }
}

} // verus!
