use pty_core::git::{git_context_for, normalize_root, parse_branches, repo_name_of};

#[test]
fn parse_branches_strips_marker_and_trims() {
    let out = "* main\n  dev\n  feature/x\n";
    assert_eq!(
        parse_branches(out),
        vec!["main".to_string(), "dev".to_string(), "feature/x".to_string()]
    );
}

#[test]
fn parse_branches_without_trailing_newline() {
    assert_eq!(parse_branches("* only"), vec!["only".to_string()]);
}

#[test]
fn parse_branches_of_empty_output() {
    assert!(parse_branches("").is_empty());
}

#[test]
fn repo_name_is_last_component() {
    assert_eq!(repo_name_of("/home/user/project"), "project");
    assert_eq!(repo_name_of("plain"), "plain");
}

#[test]
fn repo_name_falls_back_to_whole_path() {
    assert_eq!(repo_name_of(""), "");
    assert_eq!(repo_name_of("/a/b/"), "/a/b/");
}

#[test]
fn git_context_carries_root_and_name() {
    let g = git_context_for("/srv/repos/demo");
    assert_eq!(g.root, "/srv/repos/demo");
    assert_eq!(g.name, "demo");
}

#[test]
fn normalize_root_trims_and_rejects_blank() {
    assert_eq!(normalize_root(" /x/y \n"), Some("/x/y".to_string()));
    assert_eq!(normalize_root(""), None);
    assert_eq!(normalize_root(" \n"), None);
}
