//! The command line: argument parsing, mode selection, the usage text,
//! and the callback command handed to the history-rewriting mechanism.

use vstd::prelude::*;
use crate::text::{bytes_eq, parse_usize_digits, parsed_usize, views_of};

verus! {

/// The parsed command-line options.
#[derive(Clone, Debug)]
pub struct Args {
    pub n: usize,
    pub dry_run: bool,
    pub in_rebase: bool,
    pub in_filter_branch: bool,
    pub author_name: Option<Vec<u8>>,
    pub author_email: Option<Vec<u8>>,
}

/// The mathematical image of `Args`.
pub ghost struct ArgsModel {
    pub n: int,
    pub dry_run: bool,
    pub in_rebase: bool,
    pub in_filter_branch: bool,
    pub author_name: Option<Seq<u8>>,
    pub author_email: Option<Seq<u8>>,
}

impl Args {
    pub open spec fn model(&self) -> ArgsModel {
        ArgsModel {
            n: self.n as int,
            dry_run: self.dry_run,
            in_rebase: self.in_rebase,
            in_filter_branch: self.in_filter_branch,
            author_name: self.author_name.deep_view(),
            author_email: self.author_email.deep_view(),
        }
    }
}

/// Why the command line was rejected.
#[derive(Clone, Debug)]
pub enum CliError {
    /// The count flag came without a value.
    MissingNValue,
    /// The count flag's value, kept here, is not an unsigned decimal
    /// number in range.
    InvalidNValue(Vec<u8>),
    /// The author-name flag came without a value.
    MissingAuthorName,
    /// The author-email flag came without a value.
    MissingAuthorEmail,
    /// Help was asked for; the usage text is the error payload.
    HelpRequested,
    /// An argument, kept here, is not a known flag.
    UnknownArgument(Vec<u8>),
}

/// The mathematical image of `CliError`.
pub ghost enum CliErrorModel {
    MissingNValue,
    InvalidNValue(Seq<u8>),
    MissingAuthorName,
    MissingAuthorEmail,
    HelpRequested,
    UnknownArgument(Seq<u8>),
}

impl CliError {
    pub open spec fn model(&self) -> CliErrorModel {
        match self {
            CliError::MissingNValue => CliErrorModel::MissingNValue,
            CliError::InvalidNValue(v) => CliErrorModel::InvalidNValue(v@),
            CliError::MissingAuthorName => CliErrorModel::MissingAuthorName,
            CliError::MissingAuthorEmail => CliErrorModel::MissingAuthorEmail,
            CliError::HelpRequested => CliErrorModel::HelpRequested,
            CliError::UnknownArgument(v) => CliErrorModel::UnknownArgument(v@),
        }
    }
}

pub open spec fn flag_n() -> Seq<u8> {
    seq![45u8, 45u8, 110u8]
}

pub open spec fn flag_dry_run() -> Seq<u8> {
    seq![45u8, 45u8, 100u8, 114u8, 121u8, 45u8, 114u8, 117u8, 110u8]
}

pub open spec fn flag_in_rebase() -> Seq<u8> {
    seq![45u8, 45u8, 105u8, 110u8, 45u8, 114u8, 101u8, 98u8, 97u8, 115u8, 101u8]
}

pub open spec fn flag_in_filter_branch() -> Seq<u8> {
    seq![45u8, 45u8, 105u8, 110u8, 45u8, 102u8, 105u8, 108u8, 116u8, 101u8, 114u8, 45u8, 98u8,
        114u8, 97u8, 110u8, 99u8, 104u8]
}

pub open spec fn flag_author_name() -> Seq<u8> {
    seq![45u8, 45u8, 97u8, 117u8, 116u8, 104u8, 111u8, 114u8, 45u8, 110u8, 97u8, 109u8, 101u8]
}

pub open spec fn flag_author_email() -> Seq<u8> {
    seq![45u8, 45u8, 97u8, 117u8, 116u8, 104u8, 111u8, 114u8, 45u8, 101u8, 109u8, 97u8, 105u8,
        108u8]
}

pub open spec fn flag_help_long() -> Seq<u8> {
    seq![45u8, 45u8, 104u8, 101u8, 108u8, 112u8]
}

pub open spec fn flag_help_short() -> Seq<u8> {
    seq![45u8, 104u8]
}

/// The options before any argument is read: one commit, nothing else set.
pub open spec fn default_args_model() -> ArgsModel {
    ArgsModel {
        n: 1,
        dry_run: false,
        in_rebase: false,
        in_filter_branch: false,
        author_name: None,
        author_email: None,
    }
}

/// One step of parsing: reads the argument at `i` (and its value, where
/// the flag takes one) into the options so far, or rejects it.
pub open spec fn parse_step(argv: Seq<Seq<u8>>, i: int, cur: ArgsModel) -> Result<
    ArgsModel,
    CliErrorModel,
>
    decreases argv.len() - i,
{
    if i < 0 || i >= argv.len() {
        Ok(cur)
    } else {
        let a = argv[i];
        if a == flag_n() {
            if i + 1 >= argv.len() {
                Err(CliErrorModel::MissingNValue)
            } else {
                match parsed_usize(argv[i + 1]) {
                    Some(v) => parse_step(argv, i + 2, ArgsModel { n: v as int, ..cur }),
                    None => Err(CliErrorModel::InvalidNValue(argv[i + 1])),
                }
            }
        } else if a == flag_dry_run() {
            parse_step(argv, i + 1, ArgsModel { dry_run: true, ..cur })
        } else if a == flag_in_rebase() {
            parse_step(argv, i + 1, ArgsModel { in_rebase: true, ..cur })
        } else if a == flag_in_filter_branch() {
            parse_step(argv, i + 1, ArgsModel { in_filter_branch: true, ..cur })
        } else if a == flag_author_name() {
            if i + 1 >= argv.len() {
                Err(CliErrorModel::MissingAuthorName)
            } else {
                parse_step(argv, i + 2, ArgsModel { author_name: Some(argv[i + 1]), ..cur })
            }
        } else if a == flag_author_email() {
            if i + 1 >= argv.len() {
                Err(CliErrorModel::MissingAuthorEmail)
            } else {
                parse_step(argv, i + 2, ArgsModel { author_email: Some(argv[i + 1]), ..cur })
            }
        } else if a == flag_help_long() || a == flag_help_short() {
            Err(CliErrorModel::HelpRequested)
        } else {
            Err(CliErrorModel::UnknownArgument(a))
        }
    }
}

/// What parsing a whole command line (its first element being the
/// program name, which is skipped) yields.
pub open spec fn parse_outcome(argv: Seq<Seq<u8>>) -> Result<ArgsModel, CliErrorModel> {
    parse_step(argv, 1, default_args_model())
}

/// Parses the command line into options, rejecting a flag without its
/// value, a malformed count and any unknown argument.
pub fn parse_args(argv: &Vec<Vec<u8>>) -> (r: Result<Args, CliError>)
    ensures
        ({
            let m = parse_outcome(views_of(argv@));
            match r {
                Ok(a) => m matches Ok(am) && a.model() == am,
                Err(e) => m matches Err(em) && e.model() == em,
            }
        }),
{
    let ghost vs = views_of(argv@);
    let f_n: Vec<u8> = vec![45u8, 45u8, 110u8];
    let f_dry: Vec<u8> = vec![45u8, 45u8, 100u8, 114u8, 121u8, 45u8, 114u8, 117u8, 110u8];
    let f_reb: Vec<u8> = vec![45u8, 45u8, 105u8, 110u8, 45u8, 114u8, 101u8, 98u8, 97u8, 115u8,
        101u8];
    let f_fb: Vec<u8> = vec![45u8, 45u8, 105u8, 110u8, 45u8, 102u8, 105u8, 108u8, 116u8, 101u8,
        114u8, 45u8, 98u8, 114u8, 97u8, 110u8, 99u8, 104u8];
    let f_an: Vec<u8> = vec![45u8, 45u8, 97u8, 117u8, 116u8, 104u8, 111u8, 114u8, 45u8, 110u8,
        97u8, 109u8, 101u8];
    let f_ae: Vec<u8> = vec![45u8, 45u8, 97u8, 117u8, 116u8, 104u8, 111u8, 114u8, 45u8, 101u8,
        109u8, 97u8, 105u8, 108u8];
    let f_help: Vec<u8> = vec![45u8, 45u8, 104u8, 101u8, 108u8, 112u8];
    let f_h: Vec<u8> = vec![45u8, 104u8];
    proof {
        assert(f_n@ =~= flag_n());
        assert(f_dry@ =~= flag_dry_run());
        assert(f_reb@ =~= flag_in_rebase());
        assert(f_fb@ =~= flag_in_filter_branch());
        assert(f_an@ =~= flag_author_name());
        assert(f_ae@ =~= flag_author_email());
        assert(f_help@ =~= flag_help_long());
        assert(f_h@ =~= flag_help_short());
    }
    let mut args = Args {
        n: 1,
        dry_run: false,
        in_rebase: false,
        in_filter_branch: false,
        author_name: None,
        author_email: None,
    };
    let mut i: usize = 1;
    proof {
        assert(args.model() == default_args_model());
    }
    while i < argv.len()
        invariant
            1 <= i,
            vs == views_of(argv@),
            f_n@ == flag_n(),
            f_dry@ == flag_dry_run(),
            f_reb@ == flag_in_rebase(),
            f_fb@ == flag_in_filter_branch(),
            f_an@ == flag_author_name(),
            f_ae@ == flag_author_email(),
            f_help@ == flag_help_long(),
            f_h@ == flag_help_short(),
            parse_outcome(vs) == parse_step(vs, i as int, args.model()),
        decreases argv@.len() - i,
    {
        proof {
            assert(vs[i as int] == argv@[i as int]@);
        }
        let a = &argv[i];
        if bytes_eq(a.as_slice(), f_n.as_slice()) {
            if i + 1 >= argv.len() {
                return Err(CliError::MissingNValue);
            }
            proof {
                assert(vs[i + 1] == argv@[i + 1]@);
            }
            match parse_usize_digits(argv[i + 1].as_slice()) {
                Some(v) => {
                    args.n = v;
                },
                None => {
                    return Err(CliError::InvalidNValue(argv[i + 1].clone()));
                },
            }
            i = i + 2;
        } else if bytes_eq(a.as_slice(), f_dry.as_slice()) {
            args.dry_run = true;
            i = i + 1;
        } else if bytes_eq(a.as_slice(), f_reb.as_slice()) {
            args.in_rebase = true;
            i = i + 1;
        } else if bytes_eq(a.as_slice(), f_fb.as_slice()) {
            args.in_filter_branch = true;
            i = i + 1;
        } else if bytes_eq(a.as_slice(), f_an.as_slice()) {
            if i + 1 >= argv.len() {
                return Err(CliError::MissingAuthorName);
            }
            proof {
                assert(vs[i + 1] == argv@[i + 1]@);
            }
            args.author_name = Some(argv[i + 1].clone());
            proof {
                assert(args.author_name.deep_view() matches Some(s) && s =~= argv@[i + 1]@);
            }
            i = i + 2;
        } else if bytes_eq(a.as_slice(), f_ae.as_slice()) {
            if i + 1 >= argv.len() {
                return Err(CliError::MissingAuthorEmail);
            }
            proof {
                assert(vs[i + 1] == argv@[i + 1]@);
            }
            args.author_email = Some(argv[i + 1].clone());
            proof {
                assert(args.author_email.deep_view() matches Some(s) && s =~= argv@[i + 1]@);
            }
            i = i + 2;
        } else if bytes_eq(a.as_slice(), f_help.as_slice()) || bytes_eq(
            a.as_slice(),
            f_h.as_slice(),
        ) {
            return Err(CliError::HelpRequested);
        } else {
            return Err(CliError::UnknownArgument(a.clone()));
        }
    }
    Ok(args)
}

/// The usage text, handed back as an error payload when help is asked
/// for or an argument is not understood.
pub open spec fn usage_text() -> Seq<char> {
    "Usage:\n  git-fix-eof-newline [--n <int>] [--dry-run] [--author-name <substr>] [--author-email <substr>]\n\nOptions:\n  --n <int>           Check the last n commits (0 = uncommitted diff; default 1)\n  --dry-run           Print what would change without modifying anything\n  --in-filter-branch  Internal: run as git filter-branch tree-filter\n  --author-name <s>   Only process commits whose author name contains s\n  --author-email <s>  Only process commits whose author email contains s"@
}

/// The usage text as an owned string.
pub fn usage() -> (r: String)
    ensures
        r@ == usage_text(),
{
    let s: &str =
        "Usage:\n  git-fix-eof-newline [--n <int>] [--dry-run] [--author-name <substr>] [--author-email <substr>]\n\nOptions:\n  --n <int>           Check the last n commits (0 = uncommitted diff; default 1)\n  --dry-run           Print what would change without modifying anything\n  --in-filter-branch  Internal: run as git filter-branch tree-filter\n  --author-name <s>   Only process commits whose author name contains s\n  --author-email <s>  Only process commits whose author email contains s";
    s.to_owned()
}

/// The mode one run of the program operates in.
#[derive(Clone, Copy, Debug, PartialEq, Eq, Structural)]
pub enum RunMode {
    /// Scan the uncommitted working tree and staging area.
    WorktreeScan,
    /// Repair and amend the most recent commit.
    AmendHead,
    /// Rewrite a range of recent commits.
    Range,
    /// Run as the per-commit step inside the rewrite mechanism.
    FilterStep,
}

/// Why no mode fits the parsed options.
#[derive(Clone, Copy, Debug, PartialEq, Eq, Structural)]
pub enum ModeError {
    /// The internal filter step only operates on a single commit.
    FilterStepRequiresSingle,
    /// The rebase flag cannot accompany the working-tree scan.
    RebaseWithScan,
    /// The rebase flag only accompanies the single-commit mode.
    RebaseRequiresSingle,
}

/// Decides which mode the options call for: the internal filter step
/// when so flagged (and then only with a count of one), else by count:
/// zero scans the working tree, one amends the head commit, more
/// rewrites a range; the rebase flag is allowed only with a count of
/// one.
pub fn select_mode(args: &Args) -> (r: Result<RunMode, ModeError>)
    ensures
        ({
            let m = args.model();
            match r {
                Ok(RunMode::FilterStep) => m.in_filter_branch && m.n == 1,
                Ok(RunMode::WorktreeScan) => !m.in_filter_branch && m.n == 0 && !m.in_rebase,
                Ok(RunMode::AmendHead) => !m.in_filter_branch && m.n == 1,
                Ok(RunMode::Range) => !m.in_filter_branch && m.n >= 2 && !m.in_rebase,
                Err(ModeError::FilterStepRequiresSingle) => m.in_filter_branch && m.n != 1,
                Err(ModeError::RebaseWithScan) => !m.in_filter_branch && m.n == 0 && m.in_rebase,
                Err(ModeError::RebaseRequiresSingle) => !m.in_filter_branch && m.n >= 2
                    && m.in_rebase,
            }
        }),
{
    if args.in_filter_branch {
        if args.n != 1 {
            Err(ModeError::FilterStepRequiresSingle)
        } else {
            Ok(RunMode::FilterStep)
        }
    } else if args.n == 0 {
        if args.in_rebase {
            Err(ModeError::RebaseWithScan)
        } else {
            Ok(RunMode::WorktreeScan)
        }
    } else if args.n == 1 {
        Ok(RunMode::AmendHead)
    } else if args.in_rebase {
        Err(ModeError::RebaseRequiresSingle)
    } else {
        Ok(RunMode::Range)
    }
}

/// What one byte becomes inside a single-quoted shell word: a quote
/// closes the word, emits an escaped quote, and reopens it; any other
/// byte stands as it is.
pub open spec fn quote_byte_expansion(b: u8) -> Seq<u8> {
    if b == 39u8 {
        seq![39u8, 92u8, 39u8, 39u8]
    } else {
        seq![b]
    }
}

/// The body of a single-quoted shell word, byte by byte.
pub open spec fn quoted_body(s: Seq<u8>) -> Seq<u8>
    decreases s.len(),
{
    if s.len() == 0 {
        Seq::<u8>::empty()
    } else {
        quoted_body(s.drop_last()) + quote_byte_expansion(s.last())
    }
}

/// A byte string as a single shell word: quoted, with embedded quotes
/// escaped; empty input becomes an empty quoted word.
pub open spec fn sh_quoted(s: Seq<u8>) -> Seq<u8> {
    if s.len() == 0 {
        seq![39u8, 39u8]
    } else {
        seq![39u8] + quoted_body(s) + seq![39u8]
    }
}

/// Quotes a byte string for the shell as one single-quoted word.
pub fn sh_quote(s: &[u8]) -> (r: Vec<u8>)
    ensures
        r@ == sh_quoted(s@),
{
    if s.len() == 0 {
        let r: Vec<u8> = vec![39u8, 39u8];
        proof {
            assert(r@ =~= sh_quoted(s@));
        }
        return r;
    }
    let mut r: Vec<u8> = vec![39u8];
    let mut i: usize = 0;
    proof {
        assert(quoted_body(s@.take(0)) =~= Seq::<u8>::empty());
        assert(r@ =~= seq![39u8] + quoted_body(s@.take(0)));
    }
    while i < s.len()
        invariant
            i <= s@.len(),
            r@ == seq![39u8] + quoted_body(s@.take(i as int)),
        decreases s@.len() - i,
    {
        proof {
            assert(s@.take(i + 1).drop_last() =~= s@.take(i as int));
            assert(s@.take(i + 1).last() == s@[i as int]);
        }
        if s[i] == 39u8 {
            r.push(39u8);
            r.push(92u8);
            r.push(39u8);
            r.push(39u8);
            proof {
                assert(r@ =~= seq![39u8] + quoted_body(s@.take(i + 1)));
            }
        } else {
            r.push(s[i]);
            proof {
                assert(r@ =~= seq![39u8] + quoted_body(s@.take(i + 1)));
            }
        }
        i = i + 1;
    }
    proof {
        assert(s@.take(s@.len() as int) =~= s@);
    }
    r.push(39u8);
    proof {
        assert(r@ =~= sh_quoted(s@));
    }
    r
}

/// The flags every filter-step callback carries, with their leading
/// separator: the internal-mode flag and a count of one.
pub open spec fn filter_step_tail() -> Seq<u8> {
    seq![32u8, 45u8, 45u8, 105u8, 110u8, 45u8, 102u8, 105u8, 108u8, 116u8, 101u8, 114u8, 45u8,
        98u8, 114u8, 97u8, 110u8, 99u8, 104u8, 32u8, 45u8, 45u8, 110u8, 32u8, 49u8]
}

/// The forwarded author-name filter, quoted, or nothing.
pub open spec fn name_filter_part(f: Option<Seq<u8>>) -> Seq<u8> {
    match f {
        Some(v) => seq![32u8, 45u8, 45u8, 97u8, 117u8, 116u8, 104u8, 111u8, 114u8, 45u8, 110u8,
            97u8, 109u8, 101u8, 32u8] + sh_quoted(v),
        None => Seq::<u8>::empty(),
    }
}

/// The forwarded author-email filter, quoted, or nothing.
pub open spec fn email_filter_part(f: Option<Seq<u8>>) -> Seq<u8> {
    match f {
        Some(v) => seq![32u8, 45u8, 45u8, 97u8, 117u8, 116u8, 104u8, 111u8, 114u8, 45u8, 101u8,
            109u8, 97u8, 105u8, 108u8, 32u8] + sh_quoted(v),
        None => Seq::<u8>::empty(),
    }
}

/// The whole per-commit callback command: the quoted program path, the
/// internal-mode flags, and the forwarded author filters.
pub open spec fn tree_filter_command_spec(
    exe: Seq<u8>,
    name_f: Option<Seq<u8>>,
    email_f: Option<Seq<u8>>,
) -> Seq<u8> {
    sh_quoted(exe) + filter_step_tail() + name_filter_part(name_f) + email_filter_part(email_f)
}

/// Builds the shell command that the rewrite mechanism runs once per
/// commit: it re-invokes this program at `exe` in the internal filter
/// mode, forwarding the author filters and forcing a count of one.
pub fn build_filter_branch_tree_filter_command(exe: &[u8], args: &Args) -> (r: Vec<u8>)
    ensures
        r@ == tree_filter_command_spec(
            exe@,
            args.author_name.deep_view(),
            args.author_email.deep_view(),
        ),
{
    let mut r = sh_quote(exe);
    let tail: Vec<u8> = vec![32u8, 45u8, 45u8, 105u8, 110u8, 45u8, 102u8, 105u8, 108u8, 116u8,
        101u8, 114u8, 45u8, 98u8, 114u8, 97u8, 110u8, 99u8, 104u8, 32u8, 45u8, 45u8, 110u8, 32u8,
        49u8];
    proof {
        assert(tail@ =~= filter_step_tail());
    }
    r.extend_from_slice(tail.as_slice());
    match &args.author_name {
        Some(v) => {
            proof {
                assert(v.deep_view() =~= v@);
            }
            let part: Vec<u8> = vec![32u8, 45u8, 45u8, 97u8, 117u8, 116u8, 104u8, 111u8, 114u8,
                45u8, 110u8, 97u8, 109u8, 101u8, 32u8];
            r.extend_from_slice(part.as_slice());
            let q = sh_quote(v.as_slice());
            r.extend_from_slice(q.as_slice());
            proof {
                assert(r@ =~= sh_quoted(exe@) + filter_step_tail() + name_filter_part(
                    args.author_name.deep_view(),
                ));
            }
        },
        None => {
            proof {
                assert(r@ =~= sh_quoted(exe@) + filter_step_tail() + name_filter_part(
                    args.author_name.deep_view(),
                ));
            }
        },
    }
    let ghost mid = r@;
    match &args.author_email {
        Some(v) => {
            proof {
                assert(v.deep_view() =~= v@);
            }
            let part: Vec<u8> = vec![32u8, 45u8, 45u8, 97u8, 117u8, 116u8, 104u8, 111u8, 114u8,
                45u8, 101u8, 109u8, 97u8, 105u8, 108u8, 32u8];
            r.extend_from_slice(part.as_slice());
            let q = sh_quote(v.as_slice());
            r.extend_from_slice(q.as_slice());
            proof {
                assert(r@ =~= mid + email_filter_part(args.author_email.deep_view()));
            }
        },
        None => {
            proof {
                assert(r@ =~= mid + email_filter_part(args.author_email.deep_view()));
            }
        },
    }
    proof {
        assert(r@ =~= tree_filter_command_spec(
            exe@,
            args.author_name.deep_view(),
            args.author_email.deep_view(),
        ));
    }
    r
}

} // verus!
