//! Character-sequence helpers shared by the rest of the library.
//!
//! Every helper states its result over `Seq<char>`, the view of `String`
//! and `str`, with the meaning that the corresponding `str` method of the
//! standard library documents.
use vstd::prelude::*;

verus! {

/// `p` is a prefix of `s`.
pub open spec fn has_prefix(s: Seq<char>, p: Seq<char>) -> bool {
    p.len() <= s.len() && s.subrange(0, p.len() as int) == p
}

/// `p` is a suffix of `s`.
pub open spec fn has_suffix(s: Seq<char>, p: Seq<char>) -> bool {
    p.len() <= s.len() && s.subrange(s.len() - p.len(), s.len() as int) == p
}

/// The pieces of `s` between the occurrences of `c`, as `str::split` yields them:
/// one more piece than there are occurrences, empty pieces kept.
pub open spec fn split_on(s: Seq<char>, c: char) -> Seq<Seq<char>>
    decreases s.len(),
{
    if s.len() == 0 {
        seq![Seq::<char>::empty()]
    } else {
        let r = split_on(s.drop_last(), c);
        if s.last() == c {
            r.push(Seq::<char>::empty())
        } else {
            r.update(r.len() - 1, r.last().push(s.last()))
        }
    }
}

/// The pieces joined with `c` between consecutive pieces, as `[&str]::join`.
pub open spec fn join_with(parts: Seq<Seq<char>>, c: char) -> Seq<char>
    decreases parts.len(),
{
    if parts.len() == 0 {
        Seq::<char>::empty()
    } else if parts.len() == 1 {
        parts[0]
    } else {
        join_with(parts.drop_last(), c).push(c) + parts.last()
    }
}

/// The characters for which `char::is_whitespace` holds (Unicode `White_Space`).
pub open spec fn is_space(c: char) -> bool {
    ||| ('\u{9}' <= c && c <= '\u{d}')
    ||| c == ' '
    ||| c == '\u{85}'
    ||| c == '\u{a0}'
    ||| c == '\u{1680}'
    ||| ('\u{2000}' <= c && c <= '\u{200a}')
    ||| c == '\u{2028}'
    ||| c == '\u{2029}'
    ||| c == '\u{202f}'
    ||| c == '\u{205f}'
    ||| c == '\u{3000}'
}

/// `s` without its leading whitespace (`str::trim_start`).
pub open spec fn trim_start_spec(s: Seq<char>) -> Seq<char>
    decreases s.len(),
{
    if s.len() > 0 && is_space(s[0]) {
        trim_start_spec(s.drop_first())
    } else {
        s
    }
}

/// `s` without its trailing whitespace (`str::trim_end`).
pub open spec fn trim_end_spec(s: Seq<char>) -> Seq<char>
    decreases s.len(),
{
    if s.len() > 0 && is_space(s.last()) {
        trim_end_spec(s.drop_last())
    } else {
        s
    }
}

/// `str::trim`.
pub open spec fn trim_spec(s: Seq<char>) -> Seq<char> {
    trim_end_spec(trim_start_spec(s))
}

/// `s` with every leading copy of the non-empty `p` removed (`str::trim_start_matches`).
pub open spec fn trim_start_matches_spec(s: Seq<char>, p: Seq<char>) -> Seq<char>
    decreases s.len(),
{
    if p.len() > 0 && has_prefix(s, p) {
        trim_start_matches_spec(s.subrange(p.len() as int, s.len() as int), p)
    } else {
        s
    }
}

/// `s` with every trailing copy of the non-empty `p` removed (`str::trim_end_matches`).
pub open spec fn trim_end_matches_spec(s: Seq<char>, p: Seq<char>) -> Seq<char>
    decreases s.len(),
{
    if p.len() > 0 && has_suffix(s, p) {
        trim_end_matches_spec(s.subrange(0, s.len() - p.len()), p)
    } else {
        s
    }
}

/// The lines of `s` as `str::lines` yields them: split on `'\n'`, a final
/// empty piece dropped, and a `'\r'` that ends a terminated line removed.
pub open spec fn lines_spec(s: Seq<char>) -> Seq<Seq<char>> {
    let parts = split_on(s, '\n');
    let n = if parts.last().len() == 0 { parts.len() - 1 } else { parts.len() as int };
    Seq::new(
        n as nat,
        |i: int|
            if i < parts.len() - 1 && parts[i].len() > 0 && parts[i].last() == '\r' {
                parts[i].drop_last()
            } else {
                parts[i]
            },
    )
}

/// The views of a vector of character vectors.
pub open spec fn views(v: Seq<Vec<char>>) -> Seq<Seq<char>> {
    v.map_values(|x: Vec<char>| x@)
}

/// The views of a vector of strings.
pub open spec fn string_views(v: Seq<String>) -> Seq<Seq<char>> {
    v.map_values(|x: String| x@)
}

pub proof fn lemma_split_nonempty(s: Seq<char>, c: char)
    ensures
        split_on(s, c).len() >= 1,
    decreases s.len(),
{
    if s.len() > 0 {
        lemma_split_nonempty(s.drop_last(), c);
    }
}

/// Splitting on `c` and joining with `c` gives the string back.
pub proof fn lemma_join_split(s: Seq<char>, c: char)
    ensures
        join_with(split_on(s, c), c) == s,
    decreases s.len(),
{
    if s.len() > 0 {
        let t = s.drop_last();
        lemma_join_split(t, c);
        lemma_split_nonempty(t, c);
        let r = split_on(t, c);
        if s.last() == c {
            assert(r.push(Seq::<char>::empty()).drop_last() =~= r);
            assert(s =~= join_with(r, c).push(c) + Seq::<char>::empty());
        } else {
            let r2 = r.update(r.len() - 1, r.last().push(s.last()));
            if r.len() == 1 {
                assert(s =~= r2[0]);
            } else {
                assert(r2.drop_last() =~= r.drop_last());
                let a = join_with(r.drop_last(), c).push(c);
                assert(join_with(r, c) == a + r.last());
                assert(s =~= t.push(s.last()));
                assert((a + r.last()).push(s.last()) =~= a + r.last().push(s.last()));
                assert(join_with(r2, c) == join_with(r2.drop_last(), c).push(c) + r2.last());
            }
        }
    }
}

/// A piece produced by splitting on `c` holds no `c`.
pub proof fn lemma_split_pieces_free(s: Seq<char>, c: char, i: int)
    requires
        0 <= i < split_on(s, c).len(),
    ensures
        !split_on(s, c)[i].contains(c),
    decreases s.len(),
{
    if s.len() > 0 {
        let t = s.drop_last();
        lemma_split_nonempty(t, c);
        let r = split_on(t, c);
        if s.last() == c {
            if i < r.len() {
                lemma_split_pieces_free(t, c, i);
            }
        } else {
            if i < r.len() - 1 {
                lemma_split_pieces_free(t, c, i);
            } else {
                lemma_split_pieces_free(t, c, r.len() - 1);
                assert(r.last().push(s.last()) =~= split_on(s, c)[i]);
                if split_on(s, c)[i].contains(c) {
                    let k = choose|k: int| 0 <= k < split_on(s, c)[i].len() && split_on(s, c)[i][k] == c;
                    if k < r.last().len() {
                        assert(r.last()[k] == c);
                    }
                }
            }
        }
    }
}

/// With no `c` in `s`, splitting gives `s` alone.
pub proof fn lemma_split_free(s: Seq<char>, c: char)
    requires
        !s.contains(c),
    ensures
        split_on(s, c) == seq![s],
    decreases s.len(),
{
    if s.len() > 0 {
        let t = s.drop_last();
        assert(!t.contains(c)) by {
            if t.contains(c) {
                let k = choose|k: int| 0 <= k < t.len() && t[k] == c;
                assert(s[k] == c);
            }
        }
        lemma_split_free(t, c);
        assert(s.last() != c) by {
            assert(s[s.len() - 1] == s.last());
        }
        assert(t.push(s.last()) =~= s);
        assert(split_on(t, c).len() - 1 == 0);
        assert(split_on(t, c).last() == t);
        assert(split_on(s, c) == seq![t].update(0, t.push(s.last())));
        assert(seq![t].update(0, t.push(s.last())) =~= seq![s]);
    } else {
        assert(s =~= Seq::<char>::empty());
    }
}

/// Standard library `String::push`, which vstd does not specify.
#[verifier::external_body]
pub(crate) fn push_char(s: &mut String, c: char)
    ensures
        final(s)@ == old(s)@.push(c),
{
    s.push(c);
}

/// The characters of a string slice.
pub fn chars_of(s: &str) -> (r: Vec<char>)
    ensures
        r@ == s@,
{
    let mut r: Vec<char> = Vec::new();
    for c in it: s.chars()
        invariant
            r@ == it.seq().take(it.index() as int),
            it.seq() == s@,
    {
        r.push(c);
    }
    r
}

/// A string made of the given characters.
pub fn string_of(v: &Vec<char>) -> (r: String)
    ensures
        r@ == v@,
{
    let mut r = String::new();
    let mut i: usize = 0;
    while i < v.len()
        invariant
            i <= v.len(),
            r@ == v@.take(i as int),
        decreases v.len() - i,
    {
        push_char(&mut r, v[i]);
        assert(v@.take(i as int).push(v@[i as int]) =~= v@.take(i + 1));
        i += 1;
    }
    assert(v@.take(v.len() as int) =~= v@);
    r
}

/// Appends `src` to `dst`.
pub fn append_chars(dst: &mut Vec<char>, src: &Vec<char>)
    ensures
        final(dst)@ == old(dst)@ + src@,
{
    let ghost d0 = dst@;
    let mut i: usize = 0;
    while i < src.len()
        invariant
            i <= src.len(),
            dst@ == d0 + src@.take(i as int),
        decreases src.len() - i,
    {
        dst.push(src[i]);
        assert(d0 + src@.take(i as int).push(src@[i as int]) =~= d0 + src@.take(i + 1));
        i += 1;
    }
    assert(src@.take(src.len() as int) =~= src@);
}

/// Appends the characters of a string slice.
pub fn append_str(dst: &mut Vec<char>, src: &str)
    ensures
        final(dst)@ == old(dst)@ + src@,
{
    let v = chars_of(src);
    append_chars(dst, &v);
}

/// Character-wise equality.
pub fn chars_eq(a: &Vec<char>, b: &Vec<char>) -> (r: bool)
    ensures
        r == (a@ == b@),
{
    if a.len() != b.len() {
        return false;
    }
    let mut i: usize = 0;
    while i < a.len()
        invariant
            i <= a.len(),
            a.len() == b.len(),
            forall|k: int| 0 <= k < i ==> a@[k] == b@[k],
        decreases a.len() - i,
    {
        if a[i] != b[i] {
            return false;
        }
        i += 1;
    }
    assert(a@ =~= b@);
    true
}

/// `s.starts_with(p)`.
pub fn starts_with(s: &Vec<char>, p: &Vec<char>) -> (r: bool)
    ensures
        r == has_prefix(s@, p@),
{
    if p.len() > s.len() {
        return false;
    }
    let mut i: usize = 0;
    while i < p.len()
        invariant
            i <= p.len(),
            p.len() <= s.len(),
            forall|k: int| 0 <= k < i ==> s@[k] == p@[k],
        decreases p.len() - i,
    {
        if s[i] != p[i] {
            assert(s@.subrange(0, p.len() as int)[i as int] != p@[i as int]);
            return false;
        }
        i += 1;
    }
    assert(s@.subrange(0, p.len() as int) =~= p@);
    true
}

/// `s.ends_with(p)`.
pub fn ends_with(s: &Vec<char>, p: &Vec<char>) -> (r: bool)
    ensures
        r == has_suffix(s@, p@),
{
    if p.len() > s.len() {
        return false;
    }
    let off = s.len() - p.len();
    let mut i: usize = 0;
    while i < p.len()
        invariant
            i <= p.len(),
            off + p.len() == s.len(),
            forall|k: int| 0 <= k < i ==> s@[off + k] == p@[k],
        decreases p.len() - i,
    {
        if s[off + i] != p[i] {
            assert(s@.subrange(off as int, s.len() as int)[i as int] != p@[i as int]);
            return false;
        }
        i += 1;
    }
    assert(s@.subrange(off as int, s.len() as int) =~= p@);
    true
}

/// `s.contains(c)` for a character.
pub fn contains_char(s: &Vec<char>, c: char) -> (r: bool)
    ensures
        r == s@.contains(c),
{
    let mut i: usize = 0;
    while i < s.len()
        invariant
            i <= s.len(),
            forall|k: int| 0 <= k < i ==> s@[k] != c,
        decreases s.len() - i,
    {
        if s[i] == c {
            assert(s@[i as int] == c);
            return true;
        }
        i += 1;
    }
    false
}

/// The characters from `lo` up to `hi`.
pub fn slice_chars(s: &Vec<char>, lo: usize, hi: usize) -> (r: Vec<char>)
    requires
        lo <= hi <= s.len(),
    ensures
        r@ == s@.subrange(lo as int, hi as int),
{
    let mut r: Vec<char> = Vec::new();
    let mut i: usize = lo;
    while i < hi
        invariant
            lo <= i <= hi,
            hi <= s.len(),
            r@ == s@.subrange(lo as int, i as int),
        decreases hi - i,
    {
        r.push(s[i]);
        assert(s@.subrange(lo as int, i as int).push(s@[i as int]) =~= s@.subrange(
            lo as int,
            i + 1,
        ));
        i += 1;
    }
    r
}

/// `s.split(c)`, each piece as a character vector.
pub fn split_chars(s: &Vec<char>, c: char) -> (r: Vec<Vec<char>>)
    ensures
        views(r@) == split_on(s@, c),
{
    let mut parts: Vec<Vec<char>> = Vec::new();
    let mut cur: Vec<char> = Vec::new();
    let mut i: usize = 0;
    while i < s.len()
        invariant
            i <= s.len(),
            views(parts@).push(cur@) == split_on(s@.take(i as int), c),
        decreases s.len() - i,
    {
        let ghost before = views(parts@).push(cur@);
        let ch = s[i];
        assert(s@.take(i + 1).drop_last() =~= s@.take(i as int));
        assert(s@.take(i + 1).last() == ch);
        if ch == c {
            let done = cur;
            parts.push(done);
            cur = Vec::new();
            assert(views(parts@).push(cur@) =~= before.push(Seq::<char>::empty()));
        } else {
            cur.push(ch);
            assert(views(parts@).push(cur@) =~= before.update(
                before.len() - 1,
                before.last().push(ch),
            ));
        }
        i += 1;
    }
    assert(s@.take(s.len() as int) =~= s@);
    parts.push(cur);
    assert(views(parts@) =~= split_on(s@, c));
    parts
}

/// The first `n` pieces joined with `c`.
pub fn join_prefix(parts: &Vec<Vec<char>>, n: usize, c: char) -> (r: Vec<char>)
    requires
        n <= parts.len(),
    ensures
        r@ == join_with(views(parts@).take(n as int), c),
{
    let mut r: Vec<char> = Vec::new();
    let mut i: usize = 0;
    while i < n
        invariant
            i <= n <= parts.len(),
            r@ == join_with(views(parts@).take(i as int), c),
        decreases n - i,
    {
        let ghost t = views(parts@).take(i + 1);
        assert(t.drop_last() =~= views(parts@).take(i as int));
        assert(t.last() == parts@[i as int]@);
        if i > 0 {
            r.push(c);
        } else {
            assert(r@ =~= Seq::<char>::empty());
        }
        append_chars(&mut r, &parts[i]);
        if i == 0 {
            assert(r@ =~= t[0]);
        }
        i += 1;
    }
    r
}

/// All pieces joined with `c`.
pub fn join_all(parts: &Vec<Vec<char>>, c: char) -> (r: Vec<char>)
    ensures
        r@ == join_with(views(parts@), c),
{
    let r = join_prefix(parts, parts.len(), c);
    assert(views(parts@).take(parts.len() as int) =~= views(parts@));
    r
}

/// `char::is_whitespace`.
pub fn is_space_char(c: char) -> (r: bool)
    ensures
        r == is_space(c),
{
    ('\u{9}' <= c && c <= '\u{d}') || c == ' ' || c == '\u{85}' || c == '\u{a0}' || c
        == '\u{1680}' || ('\u{2000}' <= c && c <= '\u{200a}') || c == '\u{2028}' || c
        == '\u{2029}' || c == '\u{202f}' || c == '\u{205f}' || c == '\u{3000}'
}

proof fn lemma_trim_start_skip(s: Seq<char>, i: int)
    requires
        0 <= i <= s.len(),
        forall|k: int| 0 <= k < i ==> is_space(s[k]),
    ensures
        trim_start_spec(s) == trim_start_spec(s.subrange(i, s.len() as int)),
    decreases i,
{
    if i > 0 {
        assert(s.drop_first().subrange(i - 1, s.drop_first().len() as int) =~= s.subrange(
            i,
            s.len() as int,
        ));
        lemma_trim_start_skip(s.drop_first(), i - 1);
    } else {
        assert(s.subrange(0, s.len() as int) =~= s);
    }
}

proof fn lemma_trim_end_skip(s: Seq<char>, j: int)
    requires
        0 <= j <= s.len(),
        forall|k: int| j <= k < s.len() ==> is_space(s[k]),
    ensures
        trim_end_spec(s) == trim_end_spec(s.subrange(0, j)),
    decreases s.len() - j,
{
    if j < s.len() {
        assert(s.drop_last().subrange(0, j) =~= s.subrange(0, j));
        lemma_trim_end_skip(s.drop_last(), j);
    } else {
        assert(s.subrange(0, j) =~= s);
    }
}

/// `s.trim()`.
pub fn trim_chars(s: &Vec<char>) -> (r: Vec<char>)
    ensures
        r@ == trim_spec(s@),
{
    let mut i: usize = 0;
    while i < s.len() && is_space_char(s[i])
        invariant
            i <= s.len(),
            forall|k: int| 0 <= k < i ==> is_space(s@[k]),
        decreases s.len() - i,
    {
        i += 1;
    }
    proof {
        lemma_trim_start_skip(s@, i as int);
    }
    let mut j: usize = s.len();
    while j > i && is_space_char(s[j - 1])
        invariant
            i <= j <= s.len(),
            forall|k: int| j <= k < s.len() ==> is_space(s@[k]),
        decreases j,
    {
        j -= 1;
    }
    let ghost t = s@.subrange(i as int, s.len() as int);
    proof {
        assert(trim_start_spec(t) == t);
        lemma_trim_end_skip(t, j - i);
        assert(t.subrange(0, j - i) =~= s@.subrange(i as int, j as int));
        let u = s@.subrange(i as int, j as int);
        if u.len() > 0 {
            assert(u.last() == s@[j - 1]);
        }
        assert(trim_end_spec(u) == u);
    }
    slice_chars(s, i, j)
}

/// `s.trim_start_matches(p)` for a non-empty `p`.
pub fn trim_start_matches(s: &Vec<char>, p: &Vec<char>) -> (r: Vec<char>)
    requires
        p.len() > 0,
    ensures
        r@ == trim_start_matches_spec(s@, p@),
{
    let mut cur = slice_chars(s, 0, s.len());
    assert(cur@ =~= s@);
    while starts_with(&cur, p)
        invariant
            p.len() > 0,
            trim_start_matches_spec(cur@, p@) == trim_start_matches_spec(s@, p@),
        decreases cur.len(),
    {
        cur = slice_chars(&cur, p.len(), cur.len());
    }
    cur
}

/// `s.trim_end_matches(p)` for a non-empty `p`.
pub fn trim_end_matches(s: &Vec<char>, p: &Vec<char>) -> (r: Vec<char>)
    requires
        p.len() > 0,
    ensures
        r@ == trim_end_matches_spec(s@, p@),
{
    let mut cur = slice_chars(s, 0, s.len());
    assert(cur@ =~= s@);
    while ends_with(&cur, p)
        invariant
            p.len() > 0,
            trim_end_matches_spec(cur@, p@) == trim_end_matches_spec(s@, p@),
        decreases cur.len(),
    {
        cur = slice_chars(&cur, 0, cur.len() - p.len());
    }
    cur
}

/// `s.lines()`, each line as a character vector.
pub fn lines_of(s: &Vec<char>) -> (r: Vec<Vec<char>>)
    ensures
        views(r@) == lines_spec(s@),
{
    let parts = split_chars(s, '\n');
    proof {
        lemma_split_nonempty(s@, '\n');
    }
    let n = if parts[parts.len() - 1].len() == 0 {
        parts.len() - 1
    } else {
        parts.len()
    };
    let mut r: Vec<Vec<char>> = Vec::new();
    let mut i: usize = 0;
    while i < n
        invariant
            i <= n <= parts.len(),
            parts.len() >= 1,
            views(parts@) == split_on(s@, '\n'),
            n == (if parts@.last()@.len() == 0 {
                parts.len() - 1
            } else {
                parts.len() as int
            }),
            views(r@) == lines_spec(s@).take(i as int),
        decreases n - i,
    {
        let p = &parts[i];
        assert(views(parts@)[i as int] == p@);
        let line = if i + 1 < parts.len() && p.len() > 0 && p[p.len() - 1] == '\r' {
            slice_chars(p, 0, p.len() - 1)
        } else {
            slice_chars(p, 0, p.len())
        };
        proof {
            if p@.len() > 0 {
                assert(p@.last() == p@[p.len() - 1]);
                assert(p@.drop_last() =~= p@.subrange(0, p.len() - 1));
            }
            assert(p@ =~= p@.subrange(0, p.len() as int));
            assert(lines_spec(s@)[i as int] == line@);
        }
        let ghost old_r = views(r@);
        r.push(line);
        assert(views(r@) =~= old_r.push(line@));
        assert(old_r.push(line@) =~= lines_spec(s@).take(i + 1));
        i += 1;
    }
    assert(lines_spec(s@).take(n as int) =~= lines_spec(s@));
    r
}

/// `a < b` in the order of `String`: lexicographic by character code
/// (the same as by UTF-8 bytes).
pub open spec fn seq_less(a: Seq<char>, b: Seq<char>) -> bool
    decreases a.len(),
{
    if a.len() == 0 {
        b.len() > 0
    } else if b.len() == 0 {
        false
    } else if a[0] != b[0] {
        a[0] < b[0]
    } else {
        seq_less(a.drop_first(), b.drop_first())
    }
}

/// The whitespace-separated words of `s`, as `str::split_whitespace` yields them.
pub open spec fn words(s: Seq<char>) -> Seq<Seq<char>>
    decreases s.len(),
{
    if s.len() == 0 {
        Seq::<Seq<char>>::empty()
    } else {
        let r = words(s.drop_last());
        if is_space(s.last()) {
            r
        } else if s.len() >= 2 && !is_space(s[s.len() - 2]) {
            r.update(r.len() - 1, r.last().push(s.last()))
        } else {
            r.push(seq![s.last()])
        }
    }
}

/// `a < b` for character vectors, in the order of `String`.
pub fn chars_less(a: &Vec<char>, b: &Vec<char>) -> (r: bool)
    ensures
        r == seq_less(a@, b@),
{
    let mut i: usize = 0;
    assert(a@.subrange(0, a.len() as int) =~= a@);
    assert(b@.subrange(0, b.len() as int) =~= b@);
    while i < a.len() && i < b.len() && a[i] == b[i]
        invariant
            i <= a.len(),
            i <= b.len(),
            seq_less(a@, b@) == seq_less(a@.subrange(i as int, a.len() as int), b@.subrange(i as int, b.len() as int)),
        decreases a.len() - i,
    {
        let ghost sa = a@.subrange(i as int, a.len() as int);
        let ghost sb = b@.subrange(i as int, b.len() as int);
        assert(sa.drop_first() =~= a@.subrange(i + 1, a.len() as int));
        assert(sb.drop_first() =~= b@.subrange(i + 1, b.len() as int));
        i += 1;
    }
    let ghost sa = a@.subrange(i as int, a.len() as int);
    let ghost sb = b@.subrange(i as int, b.len() as int);
    if i == a.len() {
        i < b.len()
    } else if i == b.len() {
        false
    } else {
        assert(sa[0] == a@[i as int] && sb[0] == b@[i as int]);
        a[i] < b[i]
    }
}

proof fn lemma_words_nonempty(s: Seq<char>)
    requires
        s.len() > 0,
        !is_space(s.last()),
    ensures
        words(s).len() > 0,
    decreases s.len(),
{
    if s.len() >= 2 && !is_space(s[s.len() - 2]) {
        assert(s.drop_last().last() == s[s.len() - 2]);
        lemma_words_nonempty(s.drop_last());
    }
}

/// `s.split_whitespace()`, each word as a character vector.
pub fn split_whitespace_chars(s: &Vec<char>) -> (r: Vec<Vec<char>>)
    ensures
        views(r@) == words(s@),
{
    let mut ws: Vec<Vec<char>> = Vec::new();
    let mut i: usize = 0;
    assert(s@.take(0) =~= Seq::<char>::empty());
    while i < s.len()
        invariant
            i <= s.len(),
            views(ws@) == words(s@.take(i as int)),
        decreases s.len() - i,
    {
        let ch = s[i];
        let ghost t = s@.take(i + 1);
        assert(t.drop_last() =~= s@.take(i as int));
        assert(t.last() == ch);
        let ghost before = views(ws@);
        if is_space_char(ch) {
        } else if i >= 1 && !is_space_char(s[i - 1]) {
            proof {
                assert(s@.take(i as int).last() == s@[i - 1]);
                lemma_words_nonempty(s@.take(i as int));
                assert(t[t.len() - 2] == s@[i - 1]);
            }
            let k = ws.len() - 1;
            ws[k].push(ch);
            assert(views(ws@) =~= before.update(before.len() - 1, before.last().push(ch)));
        } else {
            proof {
                if i >= 1 {
                    assert(t[t.len() - 2] == s@[i - 1]);
                }
            }
            let w = vec![ch];
            assert(w@ =~= seq![ch]);
            ws.push(w);
            assert(views(ws@) =~= before.push(seq![ch]));
        }
        i += 1;
    }
    assert(s@.take(s.len() as int) =~= s@);
    ws
}

/// `!(a < a)`.
pub proof fn lemma_less_irreflexive(a: Seq<char>)
    ensures
        !seq_less(a, a),
    decreases a.len(),
{
    if a.len() > 0 {
        lemma_less_irreflexive(a.drop_first());
    }
}

/// The string order is transitive.
pub proof fn lemma_less_transitive(a: Seq<char>, b: Seq<char>, c: Seq<char>)
    requires
        seq_less(a, b),
        seq_less(b, c),
    ensures
        seq_less(a, c),
    decreases a.len(),
{
    if a.len() > 0 && b.len() > 0 && c.len() > 0 && a[0] == b[0] && b[0] == c[0] {
        lemma_less_transitive(a.drop_first(), b.drop_first(), c.drop_first());
    }
}

/// Two different strings are ordered one way or the other.
pub proof fn lemma_less_total(a: Seq<char>, b: Seq<char>)
    requires
        a != b,
    ensures
        seq_less(a, b) || seq_less(b, a),
    decreases a.len(),
{
    if a.len() == 0 {
        assert(b.len() > 0) by {
            if b.len() == 0 {
                assert(a =~= b);
            }
        }
    } else if b.len() > 0 && a[0] == b[0] {
        if a.drop_first() == b.drop_first() {
            assert(a =~= seq![a[0]] + a.drop_first());
            assert(b =~= seq![b[0]] + b.drop_first());
        }
        lemma_less_total(a.drop_first(), b.drop_first());
    }
}

} // verus!
