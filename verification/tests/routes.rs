use gitclub::routes::{route_request, static_reply, Route, StaticReply};

#[test]
fn info_refs_with_service() {
    match route_request("/alice/proj.git/info/refs", Some("service=git-upload-pack"), false) {
        Route::InfoRefs { repo_path, service } => {
            assert_eq!(repo_path, "/alice/proj.git");
            assert_eq!(service, "git-upload-pack");
        },
        _ => panic!("expected info/refs"),
    }
}

#[test]
fn service_is_first_matching_query_piece() {
    match route_request("/a/r.git/info/refs", Some("x=1&service=git-receive-pack&service=other"), false) {
        Route::InfoRefs { service, .. } => assert_eq!(service, "git-receive-pack"),
        _ => panic!("expected info/refs"),
    }
}

#[test]
fn info_refs_without_service_is_static() {
    match route_request("/a/r.git/info/refs", None, false) {
        Route::Static { asset } => assert_eq!(asset, "a/r.git/info/refs"),
        _ => panic!("expected a static file"),
    }
    match route_request("/a/r.git/info/refs", Some("foo=bar"), false) {
        Route::Static { .. } => {},
        _ => panic!("expected a static file"),
    }
}

#[test]
fn pack_requests_need_post() {
    match route_request("/a/r.git/git-upload-pack", None, true) {
        Route::UploadPack { repo_path } => assert_eq!(repo_path, "/a/r.git"),
        _ => panic!("expected upload-pack"),
    }
    match route_request("/a/r.git/git-receive-pack", None, true) {
        Route::ReceivePack { repo_path } => assert_eq!(repo_path, "/a/r.git"),
        _ => panic!("expected receive-pack"),
    }
    match route_request("/a/r.git/git-upload-pack", None, false) {
        Route::Static { .. } => {},
        _ => panic!("a GET is not a fetch"),
    }
}

#[test]
fn percent_encoded_path_is_decoded() {
    match route_request("/%E7%94%A8%E6%88%B7/repo.git/git-upload-pack", None, true) {
        Route::UploadPack { repo_path } => assert_eq!(repo_path, "/用户/repo.git"),
        _ => panic!("expected upload-pack"),
    }
}

#[test]
fn static_paths() {
    match route_request("/", None, false) {
        Route::Static { asset } => assert_eq!(asset, "index.html"),
        _ => panic!(),
    }
    match route_request("//assets/app.js", None, false) {
        Route::Static { asset } => assert_eq!(asset, "assets/app.js"),
        _ => panic!(),
    }
}

#[test]
fn static_replies() {
    match static_reply("assets/app.js", true, true) {
        StaticReply::File { name, mime } => {
            assert_eq!(name, "assets/app.js");
            assert_eq!(mime, "text/javascript");
        },
        _ => panic!(),
    }
    match static_reply("style.css", true, false) {
        StaticReply::File { mime, .. } => assert_eq!(mime, "text/css"),
        _ => panic!(),
    }
    match static_reply("unknown.zzzz", true, false) {
        StaticReply::File { mime, .. } => assert_eq!(mime, "application/octet-stream"),
        _ => panic!(),
    }
    assert!(matches!(static_reply("group/page", false, true), StaticReply::Index));
    assert!(matches!(static_reply("group/page", false, false), StaticReply::NotFound));
}

#[test]
fn percent_decoding_edge_cases() {
    for raw in ["/a%zz%4g%41%/git-upload-pack", "/x%2B+y%2f%/git-upload-pack", "/%e7%94%a8/git-upload-pack"] {
        let expected = urlencoding::decode(raw).unwrap().into_owned();
        match route_request(raw, None, true) {
            Route::UploadPack { repo_path } => {
                assert_eq!(repo_path, expected.strip_suffix("/git-upload-pack").unwrap());
            },
            _ => panic!("expected upload-pack for {}", raw),
        }
    }
    assert!(matches!(route_request("/a%41/git-upload-pack", None, true), Route::UploadPack { ref repo_path } if repo_path == "/aA"));
    // Bytes that do not form UTF-8 leave the path as sent.
    match route_request("/b%FF/git-upload-pack", None, true) {
        Route::UploadPack { repo_path } => assert_eq!(repo_path, "/b%FF"),
        _ => panic!(),
    }
}
