use gitclub::git_output::{
    branch_list, default_branch, file_content, files_from, last_commit, readme_candidates,
    readme_from, tag_names, tags_from, tree_lines, tree_ref, GitOutput,
};

fn ok(s: &str) -> Option<GitOutput> {
    Some(GitOutput { success: true, stdout: s.to_string() })
}

fn failed() -> Option<GitOutput> {
    Some(GitOutput { success: false, stdout: String::new() })
}

#[test]
fn default_branch_from_head_or_list() {
    assert_eq!(default_branch(ok("refs/heads/main\n"), None), Some("main".to_string()));
    assert_eq!(default_branch(failed(), ok("  dev\n* main\n")), Some("dev".to_string()));
    assert_eq!(default_branch(failed(), ok("* trunk\n")), Some("trunk".to_string()));
    assert_eq!(default_branch(ok("HEAD\n"), ok("")), None);
    assert_eq!(default_branch(None, ok("x\n")), None);
    assert_eq!(default_branch(failed(), None), None);
}

#[test]
fn branches_listed() {
    assert_eq!(
        branch_list(ok("* main\n  dev\n  remotes/origin/main\n")),
        vec!["main".to_string(), "dev".to_string(), "remotes/origin/main".to_string()]
    );
    assert!(branch_list(failed()).is_empty());
    assert!(branch_list(None).is_empty());
}

#[test]
fn tags_described() {
    let names = tag_names(ok("v1\n\nv2\nv3\n"));
    assert_eq!(names, vec!["v1".to_string(), "v2".to_string(), "v3".to_string()]);
    let shows = vec![ok("abc|Ann|2 days ago|Release one\n"), failed(), ok("def\n")];
    let tags = tags_from(&names, &shows);
    assert_eq!(tags.len(), 2);
    assert_eq!(tags[0].name, "v1");
    assert_eq!(tags[0].commit, "abc");
    assert_eq!(tags[0].tagger.as_deref(), Some("Ann"));
    assert_eq!(tags[0].date.as_deref(), Some("2 days ago"));
    assert_eq!(tags[0].message.as_deref(), Some("Release one"));
    assert_eq!((tags[1].name.as_str(), tags[1].commit.as_str(), tags[1].message.clone()), ("v3", "def", None));
}

#[test]
fn tree_listing() {
    assert_eq!(tree_ref("main", ""), "main");
    assert_eq!(tree_ref("main", "src/lib"), "main:src/lib");
    let out = ok(
        "100644 blob aaaa     120\tREADME.md\n040000 tree bbbb       -\tsrc\n100644 blob cccc     xx\tmy file.txt\nbad line\n",
    );
    let lines = tree_lines(out, "docs");
    assert_eq!(lines.len(), 3);
    assert_eq!((lines[0].name.as_str(), lines[0].path.as_str(), lines[0].is_dir, lines[0].size), ("README.md", "docs/README.md", false, 120));
    assert_eq!((lines[1].name.as_str(), lines[1].is_dir, lines[1].size), ("src", true, 0));
    assert_eq!((lines[2].name.as_str(), lines[2].size), ("my file.txt", 0));
    let commits = vec![ok("Fix|3 hours ago\n"), ok("weird\n"), failed()];
    let files = files_from(lines, &commits);
    let order: Vec<&str> = files.iter().map(|f| f.name.as_str()).collect();
    assert_eq!(order, vec!["src", "README.md", "my file.txt"]);
    assert_eq!(files[1].commit_message.as_deref(), Some("Fix"));
    assert_eq!(files[1].commit_date.as_deref(), Some("3 hours ago"));
    assert!(files[0].commit_message.is_none());
}

#[test]
fn last_commits() {
    assert_eq!(last_commit(&ok("msg|now\n")), (Some("msg".to_string()), Some("now".to_string())));
    assert_eq!(last_commit(&ok("a|b|c\n")), (None, None));
    assert_eq!(last_commit(&failed()), (None, None));
}

#[test]
fn readme_first_found() {
    assert_eq!(readme_candidates(), vec!["README.md", "README", "readme.md", "Readme.md"]);
    assert_eq!(readme_from(&vec![failed(), None, ok("# Hi\n"), ok("other")]), Some("# Hi\n".to_string()));
    assert_eq!(readme_from(&vec![failed(), failed()]), None);
}

#[test]
fn file_text_or_binary() {
    let f = file_content(&b"abc".to_vec());
    assert_eq!((f.content.as_str(), f.is_binary, f.size), ("abc", false, 3));
    let f = file_content(&vec![0u8, 1]);
    assert_eq!((f.content.as_str(), f.is_binary, f.size), ("[Binary file]", true, 2));
}
