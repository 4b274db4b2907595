//! Detects and reverses an unintended trailing-newline addition at
//! end-of-file.
//!
//! The crate root holds the newline predicate: byte-level tests for a
//! trailing line terminator, the stripping of exactly one terminator,
//! and the trigger condition for every repair decision.

pub mod author;
pub mod cli;
pub mod gitparse;
pub mod plan;
pub mod text;

use vstd::prelude::*;

verus! {

/// A line-feed byte ends the sequence.
pub open spec fn ends_with_lf(s: Seq<u8>) -> bool {
    s.len() > 0 && s.last() == 10u8
}

/// A carriage-return+line-feed pair ends the sequence.
pub open spec fn ends_with_crlf(s: Seq<u8>) -> bool {
    s.len() >= 2 && s[s.len() - 2] == 13u8 && s.last() == 10u8
}

/// The sequence with exactly one trailing terminator removed: a trailing
/// CRLF pair counts as one terminator, as does a lone trailing LF; a
/// sequence with neither is unchanged.
pub open spec fn strip_one_spec(s: Seq<u8>) -> Seq<u8> {
    if ends_with_crlf(s) {
        s.take(s.len() - 2)
    } else if ends_with_lf(s) {
        s.take(s.len() - 1)
    } else {
        s
    }
}

/// The trigger condition for every repair: the old content did not end in
/// a terminator and the new content does.
pub open spec fn introduced_terminator(old_s: Seq<u8>, new_s: Seq<u8>) -> bool {
    !ends_with_lf(old_s) && ends_with_lf(new_s)
}

/// What a repair of `new_s` against baseline `old_s` produces: one
/// terminator stripped when the trigger condition holds, the content
/// unchanged otherwise.
pub open spec fn repair_spec(old_s: Seq<u8>, new_s: Seq<u8>) -> Seq<u8> {
    if introduced_terminator(old_s, new_s) {
        strip_one_spec(new_s)
    } else {
        new_s
    }
}

/// True iff the byte sequence's final byte is a line feed.
pub fn ends_with_newline(bytes: &[u8]) -> (r: bool)
    ensures
        r == ends_with_lf(bytes@),
{
    match bytes.last() {
        Some(b) => *b == 10u8,
        None => false,
    }
}

/// Removes exactly one trailing terminator (a CRLF pair or a lone LF),
/// if there is one, and reports whether the content changed.
pub fn strip_one_trailing_newline(bytes: &mut Vec<u8>) -> (changed: bool)
    ensures
        final(bytes)@ == strip_one_spec(old(bytes)@),
        changed == ends_with_lf(old(bytes)@),
{
    let n = bytes.len();
    if n >= 2 && bytes[n - 2] == 13u8 && bytes[n - 1] == 10u8 {
        bytes.truncate(n - 2);
        assert(bytes@ =~= strip_one_spec(old(bytes)@));
        return true;
    }
    if n >= 1 && bytes[n - 1] == 10u8 {
        bytes.truncate(n - 1);
        assert(bytes@ =~= strip_one_spec(old(bytes)@));
        return true;
    }
    assert(bytes@ =~= strip_one_spec(old(bytes)@));
    false
}

/// True iff the transformation from `old_bytes` to `new_bytes` introduced
/// a trailing terminator that was previously absent.
pub fn added_eof_newline(old_bytes: &[u8], new_bytes: &[u8]) -> (r: bool)
    ensures
        r == introduced_terminator(old_bytes@, new_bytes@),
{
    !ends_with_newline(old_bytes) && ends_with_newline(new_bytes)
}

/// On a sequence ending in two line feeds (and not in CR+LF+LF), each of
/// two successive strips removes exactly one byte: two bytes in total,
/// never more in one call.
pub proof fn lemma_strip_twice_double_lf(s: Seq<u8>)
    requires
        s.len() >= 2,
        s[s.len() - 1] == 10u8,
        s[s.len() - 2] == 10u8,
        s.len() == 2 || s[s.len() - 3] != 13u8,
    ensures
        strip_one_spec(s) == s.take(s.len() - 1),
        strip_one_spec(strip_one_spec(s)) == s.take(s.len() - 2),
{
    let t = s.take(s.len() - 1);
    assert(strip_one_spec(s) == t);
    assert(t.last() == 10u8);
    assert(!ends_with_crlf(t));
    assert(strip_one_spec(t) =~= s.take(s.len() - 2));
}

/// Repairing content that does not qualify leaves it byte-identical.
pub proof fn lemma_repair_non_qualifying(old_s: Seq<u8>, new_s: Seq<u8>)
    requires
        !introduced_terminator(old_s, new_s),
    ensures
        repair_spec(old_s, new_s) == new_s,
{
}

/// Repairing twice removes no more than one terminator in total: a second
/// repair of already-repaired content changes nothing. The one family of
/// inputs left out is qualifying content that ends in two terminators,
/// where the once-stripped content still ends in a line feed.
pub proof fn lemma_repair_idempotent(old_s: Seq<u8>, new_s: Seq<u8>)
    requires
        !(introduced_terminator(old_s, new_s) && ends_with_lf(strip_one_spec(new_s))),
    ensures
        repair_spec(old_s, repair_spec(old_s, new_s)) == repair_spec(old_s, new_s),
{
}

} // verus!
