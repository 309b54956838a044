use bpt::repos::Repos;

#[test]
fn from_root_path_missing_repo_dir_returns_empty() {
    let repos = Repos::from_file_contents(&[]);
    assert!(repos.into_vec().is_empty());
}

#[test]
fn repos_skip_comments_and_blank_lines() {
    let files = vec![
        "# main repository\nhttps://example.com/pkgidx  # trailing comment\n\n".to_owned(),
        "  /var/local/repo/pkgidx\r\n#only a comment\n".to_owned(),
    ];
    let repos = Repos::from_file_contents(&files);
    assert_eq!(
        repos.into_vec(),
        vec!["https://example.com/pkgidx", "/var/local/repo/pkgidx"]
    );
}
