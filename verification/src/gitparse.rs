//! Parsers for the output of version-control store queries: ref probes,
//! status listings, parent listings, changed-path listings, author
//! identity lines and blob sizes.

use vstd::prelude::*;
use crate::text::{
    bytes_eq, parse_u64_digits, parsed_u64, split_on_byte, split_spec, split_ws, tokens_spec,
    trim_bytes, trim_spec, views_of,
};

verus! {

/// The bytes of the affirmative worktree probe answer.
pub open spec fn true_token() -> Seq<u8> {
    seq![116u8, 114u8, 117u8, 101u8]
}

/// Whether a worktree probe answered, once trimmed, exactly `true`.
pub fn is_inside_worktree_output(out: &[u8]) -> (r: bool)
    ensures
        r == (trim_spec(out@) == true_token()),
{
    let t = trim_bytes(out);
    let lit: Vec<u8> = vec![116u8, 114u8, 117u8, 101u8];
    proof {
        assert(lit@ =~= true_token());
    }
    bytes_eq(t.as_slice(), lit.as_slice())
}

/// Whether a porcelain status listing is blank: nothing uncommitted.
pub fn is_clean_status_output(out: &[u8]) -> (r: bool)
    ensures
        r == (trim_spec(out@).len() == 0),
{
    let t = trim_bytes(out);
    t.len() == 0
}

/// The non-empty segments of a NUL-separated path listing, in order.
pub open spec fn zpaths_spec(z: Seq<u8>) -> Seq<Seq<u8>> {
    keep_nonempty(split_spec(z, 0u8))
}

/// The subsequence of the non-empty elements.
pub open spec fn keep_nonempty(parts: Seq<Seq<u8>>) -> Seq<Seq<u8>>
    decreases parts.len(),
{
    if parts.len() == 0 {
        Seq::<Seq<u8>>::empty()
    } else {
        let p = keep_nonempty(parts.drop_last());
        if parts.last().len() > 0 {
            p.push(parts.last())
        } else {
            p
        }
    }
}

/// Splits a NUL-separated listing into its non-empty paths.
pub fn paths_from_zbytes(z: &[u8]) -> (r: Vec<Vec<u8>>)
    ensures
        views_of(r@) == zpaths_spec(z@),
{
    let parts = split_on_byte(z, 0u8);
    let mut r: Vec<Vec<u8>> = Vec::new();
    let mut i: usize = 0;
    proof {
        assert(views_of(parts@).take(0) =~= Seq::<Seq<u8>>::empty());
        assert(views_of(r@) =~= keep_nonempty(views_of(parts@).take(0)));
    }
    while i < parts.len()
        invariant
            i <= parts@.len(),
            views_of(parts@) == split_spec(z@, 0u8),
            views_of(r@) == keep_nonempty(views_of(parts@).take(i as int)),
        decreases parts@.len() - i,
    {
        proof {
            assert(views_of(parts@).take(i + 1).drop_last() =~= views_of(parts@).take(i as int));
            assert(views_of(parts@).take(i + 1).last() == parts@[i as int]@);
        }
        let ghost prev_r = r@;
        if parts[i].len() > 0 {
            r.push(parts[i].clone());
            proof {
                assert(views_of(r@) =~= views_of(prev_r).push(parts@[i as int]@));
            }
        }
        i = i + 1;
    }
    proof {
        assert(views_of(parts@).take(parts@.len() as int) =~= views_of(parts@));
    }
    r
}

/// Why a parent listing gave no usable head and parent pair.
#[derive(Clone, Copy, Debug, PartialEq, Eq, Structural)]
pub enum HeadParseError {
    /// The listing held no token at all.
    MissingHead,
    /// The listing held a head but no parent: a root commit.
    MissingParent,
    /// The listing held more than one parent: a merge commit, which is
    /// unsupported.
    MergeHead,
}

/// Reads a head id and its single parent id from a whitespace-separated
/// parent listing (`<head> <parent>`), rejecting a root head and a
/// merge head alike.
pub fn parse_head_and_parent(out: &[u8]) -> (r: Result<(Vec<u8>, Vec<u8>), HeadParseError>)
    ensures
        ({
            let toks = tokens_spec(out@);
            match r {
                Ok(p) => toks.len() == 2 && p.0@ == toks[0] && p.1@ == toks[1],
                Err(e) => (e is MissingHead && toks.len() == 0) || (e is MissingParent
                    && toks.len() == 1) || (e is MergeHead && toks.len() > 2),
            }
        }),
{
    let toks = split_ws(out);
    if toks.len() == 0 {
        Err(HeadParseError::MissingHead)
    } else if toks.len() == 1 {
        Err(HeadParseError::MissingParent)
    } else if toks.len() > 2 {
        Err(HeadParseError::MergeHead)
    } else {
        let head = toks[0].clone();
        let parent = toks[1].clone();
        Ok((head, parent))
    }
}

/// Why a commit's first parent could not be determined.
#[derive(Clone, Copy, Debug, PartialEq, Eq, Structural)]
pub enum ParentError {
    /// The commit has no parent: a root commit.
    NoParent,
    /// The commit has more than one parent: a merge commit, which is
    /// unsupported.
    MergeCommit,
}

/// Reads the single parent id from a whitespace-separated parent listing
/// (`<commit> <parent>`), rejecting root commits and merge commits.
pub fn parse_first_parent(out: &[u8]) -> (r: Result<Vec<u8>, ParentError>)
    ensures
        ({
            let toks = tokens_spec(out@);
            match r {
                Ok(p) => toks.len() == 2 && p@ == toks[1],
                Err(e) => (e is NoParent && toks.len() < 2) || (e is MergeCommit && toks.len()
                    > 2),
            }
        }),
{
    let toks = split_ws(out);
    if toks.len() < 2 {
        Err(ParentError::NoParent)
    } else if toks.len() > 2 {
        Err(ParentError::MergeCommit)
    } else {
        Ok(toks[1].clone())
    }
}

/// The status tag of a plainly modified path.
pub open spec fn modified_tag() -> Seq<u8> {
    seq![77u8]
}

/// The paths of the lines of a name-status listing whose status field is
/// exactly the modified tag, in order.
pub open spec fn modified_paths_spec(lines: Seq<Seq<u8>>) -> Seq<Seq<u8>>
    decreases lines.len(),
{
    if lines.len() == 0 {
        Seq::<Seq<u8>>::empty()
    } else {
        let p = modified_paths_spec(lines.drop_last());
        let fields = split_spec(lines.last(), 9u8);
        if fields[0] == modified_tag() && fields.len() >= 2 {
            p.push(fields[1])
        } else {
            p
        }
    }
}

/// Reads the modified paths out of a tab-separated name-status listing,
/// one line per changed path; added, deleted and renamed paths are left
/// out.
pub fn modified_paths_from_name_status(out: &[u8]) -> (r: Vec<Vec<u8>>)
    ensures
        views_of(r@) == modified_paths_spec(split_spec(out@, 10u8)),
{
    let lines = split_on_byte(out, 10u8);
    let m_lit: Vec<u8> = vec![77u8];
    proof {
        assert(m_lit@ =~= modified_tag());
    }
    let mut r: Vec<Vec<u8>> = Vec::new();
    let mut i: usize = 0;
    proof {
        assert(views_of(lines@).take(0) =~= Seq::<Seq<u8>>::empty());
        assert(views_of(r@) =~= modified_paths_spec(views_of(lines@).take(0)));
    }
    while i < lines.len()
        invariant
            i <= lines@.len(),
            views_of(lines@) == split_spec(out@, 10u8),
            m_lit@ == modified_tag(),
            views_of(r@) == modified_paths_spec(views_of(lines@).take(i as int)),
        decreases lines@.len() - i,
    {
        proof {
            assert(views_of(lines@).take(i + 1).drop_last() =~= views_of(lines@).take(i as int));
            assert(views_of(lines@).take(i + 1).last() == lines@[i as int]@);
        }
        let fields = split_on_byte(lines[i].as_slice(), 9u8);
        proof {
            crate::text::lemma_split_nonempty(lines@[i as int]@, 9u8);
            assert(fields@[0]@ == views_of(fields@)[0]);
        }
        let ghost prev_r = r@;
        if fields.len() >= 2 && bytes_eq(fields[0].as_slice(), m_lit.as_slice()) {
            r.push(fields[1].clone());
            proof {
                assert(views_of(fields@)[1] == fields@[1]@);
                assert(views_of(r@) =~= views_of(prev_r).push(fields@[1]@));
            }
        }
        i = i + 1;
    }
    proof {
        assert(views_of(lines@).take(lines@.len() as int) =~= views_of(lines@));
    }
    r
}

/// The trimmed, non-empty lines of a listing, oldest kept in place.
pub open spec fn trimmed_nonempty(lines: Seq<Seq<u8>>) -> Seq<Seq<u8>>
    decreases lines.len(),
{
    if lines.len() == 0 {
        Seq::<Seq<u8>>::empty()
    } else {
        let p = trimmed_nonempty(lines.drop_last());
        let t = trim_spec(lines.last());
        if t.len() > 0 {
            p.push(t)
        } else {
            p
        }
    }
}

/// The commit ids of a newest-first id listing, reordered oldest first.
pub open spec fn rev_list_commits(out: Seq<u8>) -> Seq<Seq<u8>> {
    trimmed_nonempty(split_spec(out, 10u8)).reverse()
}

/// Reads the commit ids out of a newest-first id listing, one per line,
/// and returns them oldest first.
pub fn commits_from_rev_list(out: &[u8]) -> (r: Vec<Vec<u8>>)
    ensures
        views_of(r@) == rev_list_commits(out@),
{
    let lines = split_on_byte(out, 10u8);
    let mut fwd: Vec<Vec<u8>> = Vec::new();
    let mut i: usize = 0;
    proof {
        assert(views_of(lines@).take(0) =~= Seq::<Seq<u8>>::empty());
        assert(views_of(fwd@) =~= trimmed_nonempty(views_of(lines@).take(0)));
    }
    while i < lines.len()
        invariant
            i <= lines@.len(),
            views_of(lines@) == split_spec(out@, 10u8),
            views_of(fwd@) == trimmed_nonempty(views_of(lines@).take(i as int)),
        decreases lines@.len() - i,
    {
        proof {
            assert(views_of(lines@).take(i + 1).drop_last() =~= views_of(lines@).take(i as int));
            assert(views_of(lines@).take(i + 1).last() == lines@[i as int]@);
        }
        let t = trim_bytes(lines[i].as_slice());
        let ghost prev_fwd = fwd@;
        if t.len() > 0 {
            fwd.push(t);
            proof {
                assert(views_of(fwd@) =~= views_of(prev_fwd).push(trim_spec(lines@[i as int]@)));
            }
        }
        i = i + 1;
    }
    proof {
        assert(views_of(lines@).take(lines@.len() as int) =~= views_of(lines@));
    }
    let mut r: Vec<Vec<u8>> = Vec::new();
    let mut j: usize = fwd.len();
    while j > 0
        invariant
            j <= fwd@.len(),
            r@.len() == fwd@.len() - j,
            forall|k: int| 0 <= k < r@.len() ==> views_of(r@)[k] == views_of(fwd@)[fwd@.len() - 1
                - k],
        decreases j,
    {
        j = j - 1;
        let ghost prev_r = r@;
        r.push(fwd[j].clone());
        proof {
            let ghost m = fwd@.len() as int;
            assert forall|k: int| 0 <= k < r@.len() implies views_of(r@)[k] == views_of(fwd@)[m - 1
                - k] by {
                assert(views_of(r@)[k] == r@[k]@);
                assert(views_of(fwd@)[m - 1 - k] == fwd@[m - 1 - k]@);
                if k < prev_r.len() {
                    assert(r@[k] == prev_r[k]);
                    assert(views_of(prev_r)[k] == prev_r[k]@);
                    assert(views_of(prev_r)[k] == views_of(fwd@)[m - 1 - k]);
                } else {
                    assert(k == prev_r.len());
                    assert(m - 1 - k == j as int);
                    assert(r@[k]@ == fwd@[j as int]@);
                }
            }
        }
    }
    proof {
        assert(views_of(r@) =~= views_of(fwd@).reverse());
    }
    r
}

/// The trimmed author name of a NUL-separated identity line.
pub open spec fn author_name_of(s: Seq<u8>) -> Seq<u8> {
    trim_spec(split_spec(s, 0u8)[0])
}

/// The trimmed author email of a NUL-separated identity line, or empty
/// when the line holds no second field.
pub open spec fn author_email_of(s: Seq<u8>) -> Seq<u8> {
    let p = split_spec(s, 0u8);
    if p.len() >= 2 {
        trim_spec(p[1])
    } else {
        Seq::<u8>::empty()
    }
}

/// Reads the trimmed author name and email out of a NUL-separated
/// identity line.
pub fn parse_author_line(out: &[u8]) -> (r: (Vec<u8>, Vec<u8>))
    ensures
        r.0@ == author_name_of(out@),
        r.1@ == author_email_of(out@),
{
    let parts = split_on_byte(out, 0u8);
    proof {
        crate::text::lemma_split_nonempty(out@, 0u8);
        assert(parts@[0]@ == views_of(parts@)[0]);
    }
    let name = trim_bytes(parts[0].as_slice());
    let email = if parts.len() >= 2 {
        proof {
            assert(parts@[1]@ == views_of(parts@)[1]);
        }
        trim_bytes(parts[1].as_slice())
    } else {
        Vec::new()
    };
    proof {
        if parts@.len() < 2 {
            assert(email@ =~= Seq::<u8>::empty());
        }
    }
    (name, email)
}

/// The ceiling above which a blob is skipped rather than examined.
pub open spec fn blob_size_ceiling() -> int {
    10_000_000
}

/// Parses a trimmed blob-size answer as a decimal byte count.
pub fn parse_blob_size(out: &[u8]) -> (r: Option<u64>)
    ensures
        r == parsed_u64(trim_spec(out@)),
{
    let t = trim_bytes(out);
    parse_u64_digits(t.as_slice())
}

/// Whether a blob of the given size is small enough to examine.
pub fn blob_size_within_limit(size: u64) -> (r: bool)
    ensures
        r == (size <= blob_size_ceiling()),
{
    size <= 10_000_000
}

} // verus!
