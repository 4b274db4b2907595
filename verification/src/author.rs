//! The author filter: case-insensitive substring tests against a
//! commit's author name and email.

use vstd::prelude::*;
use crate::text::{contains_bytes, contains_sub};

verus! {

/// The case folding of a byte string read as text: what lowercasing its
/// characters yields.
pub uninterp spec fn lower_of(s: Seq<u8>) -> Seq<u8>;

/// Relies on str::to_lowercase, after String::from_utf8_lossy decodes
/// the bytes: the Unicode lowercase of the decoded text, a function of
/// the input bytes alone, the same on every machine.
#[verifier::external_body]
fn lowercase_bytes(s: &[u8]) -> (r: Vec<u8>)
    ensures
        r@ == lower_of(s@),
{
    String::from_utf8_lossy(s).to_lowercase().into_bytes()
}

/// An identity passes the filter pair: each present filter occurs,
/// case-folded, somewhere in the case-folded field it filters.
pub open spec fn author_filter_matches(
    name: Seq<u8>,
    email: Seq<u8>,
    name_filter: Option<Seq<u8>>,
    email_filter: Option<Seq<u8>>,
) -> bool {
    &&& (name_filter matches Some(f) ==> contains_sub(lower_of(name), lower_of(f)))
    &&& (email_filter matches Some(f) ==> contains_sub(lower_of(email), lower_of(f)))
}

/// Whether an author identity passes the case-insensitive substring
/// filters; an absent filter excludes nothing.
pub fn author_matches(
    name: &[u8],
    email: &[u8],
    name_filter: &Option<Vec<u8>>,
    email_filter: &Option<Vec<u8>>,
) -> (r: bool)
    ensures
        r == author_filter_matches(name@, email@, name_filter.deep_view(), email_filter.deep_view()),
{
    match name_filter {
        Some(f) => {
            proof {
                assert(f.deep_view() =~= f@);
            }
            let folded_name = lowercase_bytes(name);
            let folded_filter = lowercase_bytes(f.as_slice());
            if !contains_bytes(folded_name.as_slice(), folded_filter.as_slice()) {
                return false;
            }
        },
        None => {},
    }
    match email_filter {
        Some(f) => {
            proof {
                assert(f.deep_view() =~= f@);
            }
            let folded_email = lowercase_bytes(email);
            let folded_filter = lowercase_bytes(f.as_slice());
            if !contains_bytes(folded_email.as_slice(), folded_filter.as_slice()) {
                return false;
            }
        },
        None => {},
    }
    true
}

} // verus!
