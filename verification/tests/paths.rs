use gitclub::text::{join_all, split_chars};
use gitclub::paths::{
    first_segment_of, join_paths, last_segment_of, parent_segments_of, segments, trim_leading_slashes,
};

#[test]
fn joining_paths() {
    assert_eq!(join_paths("/srv", "a/b"), "/srv/a/b");
    assert_eq!(join_paths("/srv/", "a"), "/srv/a");
    assert_eq!(join_paths("/srv", "/etc"), "/etc");
    assert_eq!(join_paths("", "a"), "a");
    assert_eq!(join_paths("/srv", ""), "/srv/");
}

#[test]
fn path_pieces() {
    assert_eq!(trim_leading_slashes("///a/b"), "a/b");
    assert_eq!(last_segment_of("a/b/c"), "c");
    assert_eq!(first_segment_of("a/b/c"), "a");
    assert_eq!(parent_segments_of("a/b/c"), Some("a/b".to_string()));
    assert_eq!(parent_segments_of("a"), None);
    let s: Vec<String> = segments("a//b").into_iter().map(|v| v.into_iter().collect()).collect();
    assert_eq!(s, vec!["a", "", "b"]);
}

#[test]
fn split_then_join_gives_text_back() {
    for s in ["", "a", "a/b", "/a//b/", "///"] {
        let chars: Vec<char> = s.chars().collect();
        let parts = split_chars(&chars, '/');
        let joined: String = join_all(&parts, '/').into_iter().collect();
        assert_eq!(joined, s);
    }
}
