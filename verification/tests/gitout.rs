use fix_eof_newline::gitparse::{
    blob_size_within_limit, commits_from_rev_list, is_clean_status_output,
    is_inside_worktree_output, modified_paths_from_name_status, parse_author_line,
    parse_blob_size, parse_first_parent, parse_head_and_parent, paths_from_zbytes,
    HeadParseError, ParentError,
};

#[test]
fn worktree_probe_answers() {
    assert!(is_inside_worktree_output(b"true\n"));
    assert!(is_inside_worktree_output(b"  true  "));
    assert!(!is_inside_worktree_output(b"false\n"));
    assert!(!is_inside_worktree_output(b""));
}

#[test]
fn clean_status_is_blank_output() {
    assert!(is_clean_status_output(b""));
    assert!(is_clean_status_output(b"\n"));
    assert!(!is_clean_status_output(b" M a.txt\n"));
}

#[test]
fn zpaths_drops_empty_segments() {
    let paths = paths_from_zbytes(b"a.txt\0dir/b.txt\0");
    assert_eq!(paths, vec![b"a.txt".to_vec(), b"dir/b.txt".to_vec()]);
    let paths = paths_from_zbytes(b"");
    assert!(paths.is_empty());
}

#[test]
fn head_and_parent_from_listing() {
    let r = parse_head_and_parent(b"headid parentid\n");
    let (h, p) = r.unwrap();
    assert_eq!(h, b"headid".to_vec());
    assert_eq!(p, b"parentid".to_vec());

    assert_eq!(parse_head_and_parent(b"  \n"), Err(HeadParseError::MissingHead));
    assert_eq!(parse_head_and_parent(b"rootid\n"), Err(HeadParseError::MissingParent));

    // a merge head is unsupported, not silently reduced to its first
    // parent.
    assert_eq!(parse_head_and_parent(b"m pa pb\n"), Err(HeadParseError::MergeHead));
}

#[test]
fn first_parent_rejects_roots_and_merges() {
    assert_eq!(parse_first_parent(b"c p\n"), Ok(b"p".to_vec()));
    assert_eq!(parse_first_parent(b"c\n"), Err(ParentError::NoParent));
    assert_eq!(parse_first_parent(b""), Err(ParentError::NoParent));
    assert_eq!(parse_first_parent(b"c pa pb\n"), Err(ParentError::MergeCommit));
}

#[test]
fn modified_paths_keep_only_modified_status() {
    let out = b"M\ta.txt\nA\tnew.txt\nD\tgone.txt\nM\tdir/b.txt\nR100\told\tnew\n";
    let paths = modified_paths_from_name_status(out);
    assert_eq!(paths, vec![b"a.txt".to_vec(), b"dir/b.txt".to_vec()]);
    assert!(modified_paths_from_name_status(b"").is_empty());
}

#[test]
fn rev_list_commits_come_back_oldest_first() {
    let out = b"newest\nmiddle\noldest\n";
    let commits = commits_from_rev_list(out);
    assert_eq!(
        commits,
        vec![b"oldest".to_vec(), b"middle".to_vec(), b"newest".to_vec()]
    );
    assert!(commits_from_rev_list(b"\n\n").is_empty());
}

#[test]
fn author_line_splits_name_and_email() {
    let (name, email) = parse_author_line(b"Alice Smith\0alice@example.com\n");
    assert_eq!(name, b"Alice Smith".to_vec());
    assert_eq!(email, b"alice@example.com".to_vec());

    let (name, email) = parse_author_line(b"solo");
    assert_eq!(name, b"solo".to_vec());
    assert_eq!(email, b"".to_vec());
}

#[test]
fn blob_sizes_parse_and_respect_ceiling() {
    assert_eq!(parse_blob_size(b"123\n"), Some(123));
    assert_eq!(parse_blob_size(b"bogus\n"), None);
    assert!(blob_size_within_limit(10_000_000));
    assert!(!blob_size_within_limit(10_000_001));
}
