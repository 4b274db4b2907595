use fix_eof_newline::author::author_matches;
use fix_eof_newline::plan::{
    commit_has_added_eof_newline, commits_to_rewrite, paths_needing_fix, plan_worktree_scan,
    ChangedPath, CommitScan,
};
use fix_eof_newline::strip_one_trailing_newline;

fn change(path: &[u8], old: Option<&[u8]>, new: Option<&[u8]>) -> ChangedPath {
    ChangedPath {
        path: path.to_vec(),
        old_content: old.map(|b| b.to_vec()),
        new_content: new.map(|b| b.to_vec()),
    }
}

#[test]
fn worktree_change_gaining_newline_is_repaired_to_committed_bytes() {
    // committed as `hello`, working copy changed to `hello\n`: the plan
    // examines the path on the working-tree side and the repair leaves
    // exactly `hello`.
    let plan = plan_worktree_scan(&vec![b"a.txt".to_vec()], &vec![]);
    assert_eq!(plan.worktree_only, vec![b"a.txt".to_vec()]);
    assert!(plan.partially_staged.is_empty());
    assert!(plan.index_only.is_empty());

    let changes = vec![change(b"a.txt", Some(b"hello"), Some(b"hello\n"))];
    let to_fix = paths_needing_fix(&changes);
    assert_eq!(to_fix, vec![b"a.txt".to_vec()]);

    let mut working = b"hello\n".to_vec();
    strip_one_trailing_newline(&mut working);
    assert_eq!(working, b"hello");
}

#[test]
fn head_commit_gaining_newline_is_selected_for_amending() {
    // commit A holds `hello`, commit B (the head) holds `hello\n`: the
    // path qualifies and its repaired content is exactly `hello`.
    let changes = vec![change(b"a.txt", Some(b"hello"), Some(b"hello\n"))];
    assert!(commit_has_added_eof_newline(&changes));
    assert_eq!(paths_needing_fix(&changes), vec![b"a.txt".to_vec()]);

    let mut amended = b"hello\n".to_vec();
    strip_one_trailing_newline(&mut amended);
    assert_eq!(amended, b"hello");
}

#[test]
fn unavailable_content_never_qualifies() {
    let changes = vec![
        change(b"gone.txt", None, Some(b"x\n")),
        change(b"huge.txt", Some(b"x"), None),
    ];
    assert!(!commit_has_added_eof_newline(&changes));
    assert!(paths_needing_fix(&changes).is_empty());
}

#[test]
fn partially_staged_path_is_skipped() {
    // the path differs from the committed content both staged and
    // unstaged: it is reported and repaired on neither side.
    let both = vec![b"a.txt".to_vec()];
    let plan = plan_worktree_scan(&both, &both);
    assert_eq!(plan.partially_staged, vec![b"a.txt".to_vec()]);
    assert!(plan.worktree_only.is_empty());
    assert!(plan.index_only.is_empty());
}

#[test]
fn author_filter_is_a_case_insensitive_substring_test() {
    assert!(author_matches(b"Alice Smith", b"alice@example.com", &None, &None));
    assert!(author_matches(
        b"Alice Smith",
        b"ALICE@EXAMPLE.COM",
        &None,
        &Some(b"alice@example.com".to_vec())
    ));
    assert!(author_matches(
        b"ALICE",
        b"",
        &Some(b"alice".to_vec()),
        &None
    ));
    assert!(!author_matches(
        b"Bob Jones",
        b"bob@example.com",
        &None,
        &Some(b"alice@example.com".to_vec())
    ));
    assert!(!author_matches(
        b"Alice",
        b"alice@example.com",
        &Some(b"Bob".to_vec()),
        &Some(b"alice".to_vec())
    ));
}

#[test]
fn filtered_range_rewrites_only_matching_offenders() {
    // base holds `x`; Alice's commit qualifies, Bob's qualifies too, but
    // the filter admits only Alice: the rewrite covers that commit
    // alone, so Bob's content keeps its terminator.
    let alice_matches = author_matches(
        b"Alice",
        b"alice@example.com",
        &None,
        &Some(b"alice@example.com".to_vec()),
    );
    let bob_matches = author_matches(
        b"Bob",
        b"bob@example.com",
        &None,
        &Some(b"alice@example.com".to_vec()),
    );
    assert!(alice_matches);
    assert!(!bob_matches);

    let alice_changes = vec![change(b"a.txt", Some(b"x"), Some(b"x1\n"))];
    let bob_changes = vec![change(b"a.txt", Some(b"x1\n"), Some(b"x2\n"))];
    let scans = vec![
        CommitScan {
            id: b"alicecommit".to_vec(),
            author_matched: alice_matches,
            needs_fix: commit_has_added_eof_newline(&alice_changes),
        },
        CommitScan {
            id: b"bobcommit".to_vec(),
            author_matched: bob_matches,
            needs_fix: commit_has_added_eof_newline(&bob_changes),
        },
    ];
    let targets = commits_to_rewrite(&scans);
    assert_eq!(targets, vec![b"alicecommit".to_vec()]);

    // Bob's change did not introduce a terminator over Alice's repaired
    // content, and that commit is not rewritten: its content is
    // untouched.
    assert!(!commit_has_added_eof_newline(&bob_changes));
}

#[test]
fn oldest_offender_comes_first_in_the_rewrite_list() {
    let scans = vec![
        CommitScan { id: b"old".to_vec(), author_matched: true, needs_fix: false },
        CommitScan { id: b"mid".to_vec(), author_matched: true, needs_fix: true },
        CommitScan { id: b"new".to_vec(), author_matched: true, needs_fix: true },
    ];
    let targets = commits_to_rewrite(&scans);
    assert_eq!(targets, vec![b"mid".to_vec(), b"new".to_vec()]);
    assert_eq!(targets.first().unwrap(), &b"mid".to_vec());
}
