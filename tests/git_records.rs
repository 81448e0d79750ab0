use packer_pin::git::{
    branch_from_head_ref, find_head_for_branch, get_repo_name, identify_target_branch_name,
    prompt_labels, trim_text, RemoteHeadCommit, RemoteHeadType,
};

#[test]
fn head_types_from_text() {
    assert!(matches!(RemoteHeadType::from_str("heads"), RemoteHeadType::Head));
    assert!(matches!(RemoteHeadType::from_str("pulls"), RemoteHeadType::Pull));
    assert!(matches!(RemoteHeadType::from_str("tags"), RemoteHeadType::Tag));
    match RemoteHeadType::from_str("pull") {
        RemoteHeadType::Unknown { kind_name } => assert_eq!(kind_name, "pull"),
        other => panic!("unexpected {:?}", other),
    }
}

#[test]
fn remote_ls_records() {
    let r = RemoteHeadCommit::from_remote_ls("abcdef0".to_owned(), "refs/heads/main".to_owned(), "msg".to_owned());
    assert_eq!(r.name, "main");
    assert_eq!(r.full_name, "refs/heads/main");
    assert_eq!(r.message, "msg");
    assert!(matches!(r.type_, RemoteHeadType::Head));
    let p = RemoteHeadCommit::from_remote_ls("1".to_owned(), "refs/pull/12/head".to_owned(), String::new());
    assert_eq!(p.name, "12/head");
    assert!(matches!(p.type_, RemoteHeadType::Unknown { .. }));
    let t = RemoteHeadCommit::from_remote_ls("2".to_owned(), "refs/tags/v1.0".to_owned(), String::new());
    assert!(matches!(t.type_, RemoteHeadType::Tag));
    let h = RemoteHeadCommit::from_remote_ls("3".to_owned(), "HEAD".to_owned(), String::new());
    assert_eq!(h.name, "HEAD");
    assert!(matches!(h.type_, RemoteHeadType::Head));
}

#[test]
fn labels_and_current_record() {
    let cur = RemoteHeadCommit::from_current_commit("abc123ffff".to_owned());
    assert_eq!(cur.name, "(Current)");
    assert_eq!(cur.message, "");
    assert_eq!(cur.to_string(), "(abc123) (Current)");
    let head = RemoteHeadCommit::from_remote_ls("def456aaaa".to_owned(), "refs/heads/main".to_owned(), String::new());
    assert_eq!(head.to_string(), "(def456) main");
    assert_eq!(prompt_labels(&cur, &head), vec!["(abc123) (Current)".to_owned(), "(def456) main".to_owned()]);
}

#[test]
fn repo_and_branch_names() {
    assert_eq!(get_repo_name("owner/repo"), "repo");
    assert_eq!(get_repo_name("owner/repo/x"), "repo/x");
    assert_eq!(get_repo_name("plain"), "plain");
    assert_eq!(identify_target_branch_name("main", Some("dev")), "dev");
    assert_eq!(identify_target_branch_name("main", None), "main");
}

#[test]
fn head_lookup_by_branch() {
    let heads = vec![
        RemoteHeadCommit::from_remote_ls("a".to_owned(), "HEAD".to_owned(), String::new()),
        RemoteHeadCommit::from_remote_ls("b".to_owned(), "refs/heads/main".to_owned(), String::new()),
        RemoteHeadCommit::from_remote_ls("c".to_owned(), "refs/tags/main".to_owned(), String::new()),
    ];
    assert_eq!(find_head_for_branch(&heads, "main"), Some(1));
    assert_eq!(find_head_for_branch(&heads, "dev"), None);
}

#[test]
fn default_branch_from_head_file() {
    assert_eq!(branch_from_head_ref("ref: refs/remotes/origin/main\n"), Some("main".to_owned()));
    assert_eq!(branch_from_head_ref("  ref:refs/remotes/origin/trunk  "), Some("trunk".to_owned()));
}

#[test]
fn trim_strips_unicode_white_space() {
    assert_eq!(trim_text("  a b\t\n"), "a b");
    assert_eq!(trim_text("\u{3000}x\u{a0}"), "x");
    assert_eq!(trim_text(" \t "), "");
    assert_eq!(trim_text("inner  space"), "inner  space");
}
