use fix_eof_newline::cli::{
    build_filter_branch_tree_filter_command, parse_args, select_mode, sh_quote, usage, Args,
    CliError, ModeError, RunMode,
};

fn argv(parts: &[&str]) -> Vec<Vec<u8>> {
    let mut v = vec![b"prog".to_vec()];
    for p in parts {
        v.push(p.as_bytes().to_vec());
    }
    v
}

#[test]
fn defaults_check_the_most_recent_commit() {
    let a = parse_args(&argv(&[])).unwrap();
    assert_eq!(a.n, 1);
    assert!(!a.dry_run);
    assert!(!a.in_rebase);
    assert!(!a.in_filter_branch);
    assert!(a.author_name.is_none());
    assert!(a.author_email.is_none());
}

#[test]
fn all_flags_parse() {
    let a = parse_args(&argv(&[
        "--n",
        "3",
        "--dry-run",
        "--author-name",
        "Alice",
        "--author-email",
        "alice@example.com",
    ]))
    .unwrap();
    assert_eq!(a.n, 3);
    assert!(a.dry_run);
    assert_eq!(a.author_name, Some(b"Alice".to_vec()));
    assert_eq!(a.author_email, Some(b"alice@example.com".to_vec()));

    let a = parse_args(&argv(&["--n", "+2"])).unwrap();
    assert_eq!(a.n, 2);

    let a = parse_args(&argv(&["--in-rebase"])).unwrap();
    assert!(a.in_rebase);
    let a = parse_args(&argv(&["--in-filter-branch"])).unwrap();
    assert!(a.in_filter_branch);
}

#[test]
fn bad_arguments_are_rejected() {
    assert!(matches!(parse_args(&argv(&["--n"])), Err(CliError::MissingNValue)));
    assert!(matches!(
        parse_args(&argv(&["--n", "x2"])),
        Err(CliError::InvalidNValue(v)) if v == b"x2".to_vec()
    ));
    assert!(matches!(
        parse_args(&argv(&["--author-name"])),
        Err(CliError::MissingAuthorName)
    ));
    assert!(matches!(
        parse_args(&argv(&["--author-email"])),
        Err(CliError::MissingAuthorEmail)
    ));
    assert!(matches!(parse_args(&argv(&["--help"])), Err(CliError::HelpRequested)));
    assert!(matches!(parse_args(&argv(&["-h"])), Err(CliError::HelpRequested)));
    assert!(matches!(
        parse_args(&argv(&["--bogus"])),
        Err(CliError::UnknownArgument(v)) if v == b"--bogus".to_vec()
    ));
}

fn args_with(n: usize, in_rebase: bool, in_filter_branch: bool) -> Args {
    Args {
        n,
        dry_run: false,
        in_rebase,
        in_filter_branch,
        author_name: None,
        author_email: None,
    }
}

#[test]
fn mode_selection_follows_the_count() {
    assert_eq!(select_mode(&args_with(0, false, false)), Ok(RunMode::WorktreeScan));
    assert_eq!(select_mode(&args_with(1, false, false)), Ok(RunMode::AmendHead));
    assert_eq!(select_mode(&args_with(1, true, false)), Ok(RunMode::AmendHead));
    assert_eq!(select_mode(&args_with(2, false, false)), Ok(RunMode::Range));
    assert_eq!(select_mode(&args_with(1, false, true)), Ok(RunMode::FilterStep));
}

#[test]
fn mode_selection_rejects_conflicts() {
    assert_eq!(select_mode(&args_with(0, true, false)), Err(ModeError::RebaseWithScan));
    assert_eq!(
        select_mode(&args_with(5, true, false)),
        Err(ModeError::RebaseRequiresSingle)
    );
    assert_eq!(
        select_mode(&args_with(2, false, true)),
        Err(ModeError::FilterStepRequiresSingle)
    );
}

#[test]
fn usage_names_every_flag() {
    let u = usage();
    assert!(u.starts_with("Usage:"));
    assert!(u.contains("--n <int>"));
    assert!(u.contains("--dry-run"));
    assert!(u.contains("--author-name"));
    assert!(u.contains("--author-email"));
    assert!(u.contains("--in-filter-branch"));
}

#[test]
fn sh_quote_cases() {
    assert_eq!(sh_quote(b""), b"''".to_vec());
    assert_eq!(sh_quote(b"plain"), b"'plain'".to_vec());
    assert_eq!(sh_quote(b"don't"), b"'don'\\''t'".to_vec());
}

#[test]
fn tree_filter_command_forwards_the_filters() {
    let mut a = args_with(3, false, false);
    a.author_email = Some(b"alice@example.com".to_vec());
    let cmd = build_filter_branch_tree_filter_command(b"/bin/tool", &a);
    assert_eq!(
        cmd,
        b"'/bin/tool' --in-filter-branch --n 1 --author-email 'alice@example.com'".to_vec()
    );

    let plain = args_with(2, false, false);
    let cmd = build_filter_branch_tree_filter_command(b"/bin/tool", &plain);
    assert_eq!(cmd, b"'/bin/tool' --in-filter-branch --n 1".to_vec());

    let mut b = args_with(2, false, false);
    b.author_name = Some(b"O'Hara".to_vec());
    let cmd = build_filter_branch_tree_filter_command(b"/bin/tool", &b);
    assert_eq!(
        cmd,
        b"'/bin/tool' --in-filter-branch --n 1 --author-name 'O'\\''Hara'".to_vec()
    );
}
