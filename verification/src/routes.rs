//! Requests that reach no API route: Git smart-HTTP requests, recognised by
//! the end of their decoded path, and otherwise the embedded web interface.
use vstd::prelude::*;
use vstd::utf8::{encode_utf8, valid_utf8, decode_utf8};
use crate::text::{
    has_prefix, has_suffix, split_on, views, chars_of, string_of, split_chars, starts_with,
    ends_with, slice_chars,
};
use crate::paths::{without_leading_slashes, trim_leading_slashes};

verus! {

/// Where a request goes.
pub enum Route {
    /// `info/refs` of the repository at `repo_path` for `service`.
    InfoRefs { repo_path: String, service: String },
    /// `git-upload-pack` of the repository at `repo_path`.
    UploadPack { repo_path: String },
    /// `git-receive-pack` of the repository at `repo_path`.
    ReceivePack { repo_path: String },
    /// The embedded file `asset`, else the web interface's `index.html`.
    Static { asset: String },
}

/// The plain value of a [`Route`].
pub enum RouteView {
    InfoRefs(Seq<char>, Seq<char>),
    UploadPack(Seq<char>),
    ReceivePack(Seq<char>),
    Static(Seq<char>),
}

impl View for Route {
    type V = RouteView;

    open spec fn view(&self) -> RouteView {
        match self {
            Route::InfoRefs { repo_path, service } => RouteView::InfoRefs(repo_path@, service@),
            Route::UploadPack { repo_path } => RouteView::UploadPack(repo_path@),
            Route::ReceivePack { repo_path } => RouteView::ReceivePack(repo_path@),
            Route::Static { asset } => RouteView::Static(asset@),
        }
    }
}

/// The value of an ASCII hexadecimal digit, either case.
pub open spec fn hex_value(b: u8) -> Option<nat> {
    if 0x30 <= b && b <= 0x39 {
        Some((b - 0x30) as nat)
    } else if 0x41 <= b && b <= 0x46 {
        Some((b - 0x41 + 10) as nat)
    } else if 0x61 <= b && b <= 0x66 {
        Some((b - 0x61 + 10) as nat)
    } else {
        None
    }
}

/// Percent-decoding of bytes, left to right: a `%` followed by two hex
/// digits becomes the byte they spell; any other `%` is kept as it is, and
/// so is every other byte (`+` included).
pub open spec fn percent_decode_bytes(d: Seq<u8>) -> Seq<u8>
    decreases d.len(),
{
    if d.len() == 0 {
        d
    } else if d[0] != 0x25 {
        seq![d[0]] + percent_decode_bytes(d.drop_first())
    } else if d.len() >= 3 && hex_value(d[1]) is Some && hex_value(d[2]) is Some {
        seq![(hex_value(d[1])->0 * 16 + hex_value(d[2])->0) as u8] + percent_decode_bytes(
            d.subrange(3, d.len() as int),
        )
    } else {
        seq![d[0]] + percent_decode_bytes(d.drop_first())
    }
}

/// What `urlencoding::decode` gives for `path`: the percent-decoded bytes of
/// its UTF-8 text read as UTF-8, or `None` when they are not UTF-8.
pub open spec fn percent_decoded(path: Seq<char>) -> Option<Seq<char>> {
    let b = percent_decode_bytes(encode_utf8(path));
    if valid_utf8(b) {
        Some(decode_utf8(b))
    } else {
        None
    }
}

/// The MIME type `mime_guess` gives for the extension of `path`, or
/// `application/octet-stream` when it knows none.
pub uninterp spec fn guessed_mime(path: Seq<char>) -> Seq<char>;

/// `urlencoding::decode(path)`, its UTF-8 error dropped.
#[verifier::external_body]
fn url_decode(path: &str) -> (r: Option<String>)
    ensures
        r matches Some(v) ==> percent_decoded(path@) == Some(v@),
        r is None ==> percent_decoded(path@) is None,
{
    match urlencoding::decode(path) {
        Ok(s) => Some(s.into_owned()),
        Err(_) => None,
    }
}

/// `mime_guess::from_path(path).first_or_octet_stream()`.
#[verifier::external_body]
pub(crate) fn mime_for(path: &str) -> (r: String)
    ensures
        r@ == guessed_mime(path@),
{
    let m = mime_guess::from_path(path).first_or_octet_stream();
    m.as_ref().to_string()
}

/// The decoded request path: percent-decoded, or as sent when that fails.
pub open spec fn decoded_path(raw: Seq<char>) -> Seq<char> {
    match percent_decoded(raw) {
        Some(d) => d,
        None => raw,
    }
}

/// The first piece of `parts` that starts with `pre`, without `pre`.
pub open spec fn first_with_prefix(parts: Seq<Seq<char>>, pre: Seq<char>) -> Option<Seq<char>>
    decreases parts.len(),
{
    if parts.len() == 0 {
        None
    } else if has_prefix(parts[0], pre) {
        Some(parts[0].subrange(pre.len() as int, parts[0].len() as int))
    } else {
        first_with_prefix(parts.drop_first(), pre)
    }
}

/// The `service` query parameter: the first `&`-separated piece starting with `service=`.
pub open spec fn service_param(query: Option<Seq<char>>) -> Option<Seq<char>> {
    match query {
        None => None,
        Some(q) => first_with_prefix(split_on(q, '&'), "service="@),
    }
}

/// `s` without the suffix `suf`.
pub open spec fn cut_suffix(s: Seq<char>, suf: Seq<char>) -> Seq<char> {
    s.subrange(0, s.len() - suf.len())
}

/// The embedded file a path names: the path without its leading slashes, or
/// `index.html` when nothing is left.
pub open spec fn asset_name(raw: Seq<char>) -> Seq<char> {
    let p = without_leading_slashes(raw);
    if p.len() == 0 {
        "index.html"@
    } else {
        p
    }
}

/// The route of a request with path `raw`, query `query` and method POST or not.
pub open spec fn route_of(raw: Seq<char>, query: Option<Seq<char>>, is_post: bool) -> RouteView {
    let d = decoded_path(raw);
    if has_suffix(d, "/info/refs"@) {
        match service_param(query) {
            Some(s) => RouteView::InfoRefs(cut_suffix(d, "/info/refs"@), s),
            None => RouteView::Static(asset_name(raw)),
        }
    } else if has_suffix(d, "/git-upload-pack"@) && is_post {
        RouteView::UploadPack(cut_suffix(d, "/git-upload-pack"@))
    } else if has_suffix(d, "/git-receive-pack"@) && is_post {
        RouteView::ReceivePack(cut_suffix(d, "/git-receive-pack"@))
    } else {
        RouteView::Static(asset_name(raw))
    }
}

fn service_from_query(query: &str) -> (r: Option<String>)
    ensures
        r matches Some(v) ==> service_param(Some(query@)) == Some(v@),
        r is None ==> service_param(Some(query@)) is None,
{
    let q = chars_of(query);
    let parts = split_chars(&q, '&');
    let pre = chars_of("service=");
    let ghost ps = views(parts@);
    assert(ps.subrange(0, ps.len() as int) =~= ps);
    let mut i: usize = 0;
    while i < parts.len()
        invariant
            i <= parts.len(),
            ps == views(parts@),
            ps == split_on(query@, '&'),
            pre@ == "service="@,
            first_with_prefix(ps, pre@) == first_with_prefix(ps.subrange(i as int, ps.len() as int), pre@),
        decreases parts.len() - i,
    {
        let ghost rest = ps.subrange(i as int, ps.len() as int);
        assert(rest[0] == parts@[i as int]@);
        if starts_with(&parts[i], &pre) {
            let v = slice_chars(&parts[i], pre.len(), parts[i].len());
            return Some(string_of(&v));
        }
        assert(rest.drop_first() =~= ps.subrange(i + 1, ps.len() as int));
        i += 1;
    }
    None
}

fn asset_of(raw: &str) -> (r: String)
    ensures
        r@ == asset_name(raw@),
{
    let p = trim_leading_slashes(raw);
    if p.as_str().is_empty() {
        String::from_str("index.html")
    } else {
        p
    }
}

/// Where a request with path `raw` (as sent), query `query` and method POST
/// or not goes.
pub fn route_request(raw: &str, query: Option<&str>, is_post: bool) -> (r: Route)
    ensures
        r@ == route_of(raw@, match query {
            Some(q) => Some(q@),
            None => None,
        }, is_post),
{
    let d = match url_decode(raw) {
        Some(v) => v,
        None => String::from_str(raw),
    };
    let dc = chars_of(d.as_str());
    let info = chars_of("/info/refs");
    let upload = chars_of("/git-upload-pack");
    let receive = chars_of("/git-receive-pack");
    if ends_with(&dc, &info) {
        let svc = match query {
            Some(q) => service_from_query(q),
            None => None,
        };
        match svc {
            Some(s) => Route::InfoRefs {
                repo_path: string_of(&slice_chars(&dc, 0, dc.len() - info.len())),
                service: s,
            },
            None => Route::Static { asset: asset_of(raw) },
        }
    } else if ends_with(&dc, &upload) && is_post {
        Route::UploadPack { repo_path: string_of(&slice_chars(&dc, 0, dc.len() - upload.len())) }
    } else if ends_with(&dc, &receive) && is_post {
        Route::ReceivePack { repo_path: string_of(&slice_chars(&dc, 0, dc.len() - receive.len())) }
    } else {
        Route::Static { asset: asset_of(raw) }
    }
}

/// How the web interface answers a request for an embedded file.
pub enum StaticReply {
    /// The file itself, with the MIME type of its name.
    File { name: String, mime: String },
    /// The interface's `index.html` as `text/html`, for a path the
    /// interface routes itself.
    Index,
    /// 404 `Not Found`: not even `index.html` is embedded.
    NotFound,
}

/// The answer for the embedded file `asset` (as [`asset_name`] gives it),
/// given whether it is embedded and whether `index.html` is.
pub fn static_reply(asset: &str, asset_found: bool, index_found: bool) -> (r: StaticReply)
    ensures
        asset_found ==> (r matches StaticReply::File { name, mime } && name@ == asset@ && mime@ == guessed_mime(asset@)),
        !asset_found && index_found ==> r is Index,
        !asset_found && !index_found ==> r is NotFound,
{
    if asset_found {
        StaticReply::File { name: String::from_str(asset), mime: mime_for(asset) }
    } else if index_found {
        StaticReply::Index
    } else {
        StaticReply::NotFound
    }
}

} // verus!
