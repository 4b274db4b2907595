//! Byte-level text utilities: trimming, splitting, tokenising, digit
//! parsing and substring search, as the parsers of version-control
//! output need them.

use vstd::prelude::*;

verus! {

/// ASCII whitespace: the characters that trimming removes at either end.
pub open spec fn is_ws(b: u8) -> bool {
    b == 32u8 || (9u8 <= b && b <= 13u8)
}

/// The views of a sequence of byte vectors.
pub open spec fn views_of(q: Seq<Vec<u8>>) -> Seq<Seq<u8>> {
    Seq::new(q.len(), |i: int| q[i]@)
}

fn byte_is_ws(b: u8) -> (r: bool)
    ensures
        r == is_ws(b),
{
    b == 32u8 || (9u8 <= b && b <= 13u8)
}

/// Whether two byte strings hold the same bytes.
pub fn bytes_eq(a: &[u8], b: &[u8]) -> (r: bool)
    ensures
        r == (a@ == b@),
{
    if a.len() != b.len() {
        return false;
    }
    let mut i: usize = 0;
    while i < a.len()
        invariant
            a@.len() == b@.len(),
            i <= a@.len(),
            forall|j: int| 0 <= j < i ==> a@[j] == b@[j],
        decreases a@.len() - i,
    {
        if a[i] != b[i] {
            return false;
        }
        i = i + 1;
    }
    proof {
        assert(a@ =~= b@);
    }
    true
}

/// The sequence with trailing ASCII whitespace removed.
pub open spec fn trim_end_spec(s: Seq<u8>) -> Seq<u8>
    decreases s.len(),
{
    if s.len() > 0 && is_ws(s.last()) {
        trim_end_spec(s.drop_last())
    } else {
        s
    }
}

/// The sequence with leading ASCII whitespace removed.
pub open spec fn trim_start_spec(s: Seq<u8>) -> Seq<u8>
    decreases s.len(),
{
    if s.len() > 0 && is_ws(s.first()) {
        trim_start_spec(s.skip(1))
    } else {
        s
    }
}

/// The sequence with ASCII whitespace removed at both ends.
pub open spec fn trim_spec(s: Seq<u8>) -> Seq<u8> {
    trim_start_spec(trim_end_spec(s))
}

/// A copy of the byte string with whitespace removed at both ends.
pub fn trim_bytes(s: &[u8]) -> (r: Vec<u8>)
    ensures
        r@ == trim_spec(s@),
{
    let mut hi: usize = s.len();
    proof {
        assert(s@.take(hi as int) =~= s@);
    }
    while hi > 0 && byte_is_ws(s[hi - 1])
        invariant
            hi <= s@.len(),
            trim_end_spec(s@) == trim_end_spec(s@.take(hi as int)),
        decreases hi,
    {
        proof {
            assert(s@.take(hi as int).last() == s@[hi - 1]);
            assert(s@.take(hi as int).drop_last() =~= s@.take(hi - 1));
        }
        hi = hi - 1;
    }
    proof {
        if hi == 0 {
            assert(s@.take(0) =~= Seq::<u8>::empty());
        }
        assert(trim_end_spec(s@) == s@.take(hi as int));
    }
    let mut lo: usize = 0;
    proof {
        assert(s@.take(hi as int).skip(0) =~= s@.take(hi as int));
    }
    while lo < hi && byte_is_ws(s[lo])
        invariant
            lo <= hi <= s@.len(),
            trim_end_spec(s@) == s@.take(hi as int),
            trim_start_spec(s@.take(hi as int)) == trim_start_spec(
                s@.take(hi as int).skip(lo as int),
            ),
        decreases hi - lo,
    {
        proof {
            let part = s@.take(hi as int).skip(lo as int);
            assert(part.first() == s@[lo as int]);
            assert(part.skip(1) =~= s@.take(hi as int).skip(lo + 1));
        }
        lo = lo + 1;
    }
    proof {
        assert(trim_spec(s@) == s@.take(hi as int).skip(lo as int));
    }
    let mut r: Vec<u8> = Vec::new();
    let mut i: usize = lo;
    while i < hi
        invariant
            lo <= i <= hi <= s@.len(),
            r@ =~= s@.subrange(lo as int, i as int),
        decreases hi - i,
    {
        r.push(s[i]);
        i = i + 1;
    }
    proof {
        assert(r@ =~= s@.take(hi as int).skip(lo as int));
    }
    r
}

/// The segments of a sequence split on a separator byte: one segment
/// more than there are separators, empty segments kept.
pub open spec fn split_spec(s: Seq<u8>, sep: u8) -> Seq<Seq<u8>>
    decreases s.len(),
{
    if s.len() == 0 {
        seq![Seq::<u8>::empty()]
    } else {
        let p = split_spec(s.drop_last(), sep);
        if s.last() == sep {
            p.push(Seq::<u8>::empty())
        } else {
            p.drop_last().push(p.last().push(s.last()))
        }
    }
}

pub proof fn lemma_split_nonempty(s: Seq<u8>, sep: u8)
    ensures
        split_spec(s, sep).len() >= 1,
    decreases s.len(),
{
    if s.len() > 0 {
        lemma_split_nonempty(s.drop_last(), sep);
    }
}

/// Splits a byte string on a separator byte, keeping empty segments.
pub fn split_on_byte(s: &[u8], sep: u8) -> (r: Vec<Vec<u8>>)
    ensures
        views_of(r@) == split_spec(s@, sep),
{
    let mut parts: Vec<Vec<u8>> = Vec::new();
    let mut cur: Vec<u8> = Vec::new();
    let mut i: usize = 0;
    proof {
        assert(s@.take(0) =~= Seq::<u8>::empty());
        assert(views_of(parts@).push(cur@) =~= split_spec(s@.take(0), sep));
    }
    while i < s.len()
        invariant
            i <= s@.len(),
            views_of(parts@).push(cur@) == split_spec(s@.take(i as int), sep),
        decreases s@.len() - i,
    {
        proof {
            assert(s@.take(i + 1).drop_last() =~= s@.take(i as int));
            assert(s@.take(i + 1).last() == s@[i as int]);
        }
        let ghost prev_parts = parts@;
        let ghost prev_cur = cur@;
        if s[i] == sep {
            parts.push(cur);
            cur = Vec::new();
            proof {
                assert(views_of(parts@) =~= views_of(prev_parts).push(prev_cur));
                assert(views_of(parts@).push(cur@) =~= split_spec(s@.take(i + 1), sep));
            }
        } else {
            cur.push(s[i]);
            proof {
                let p = split_spec(s@.take(i as int), sep);
                assert(p.drop_last() =~= views_of(prev_parts));
                assert(p.last() == prev_cur);
                assert(views_of(parts@).push(cur@) =~= split_spec(s@.take(i + 1), sep));
            }
        }
        i = i + 1;
    }
    proof {
        assert(s@.take(s@.len() as int) =~= s@);
    }
    let ghost prev_parts = parts@;
    let ghost prev_cur = cur@;
    parts.push(cur);
    proof {
        assert(views_of(parts@) =~= views_of(prev_parts).push(prev_cur));
    }
    parts
}

/// The whitespace-separated tokens of a byte string, in order, with no
/// empty tokens.
pub open spec fn tokens_spec(s: Seq<u8>) -> Seq<Seq<u8>>
    decreases s.len(),
{
    if s.len() == 0 {
        Seq::<Seq<u8>>::empty()
    } else {
        let p = tokens_spec(s.drop_last());
        let b = s.last();
        if is_ws(b) {
            p
        } else if s.len() >= 2 && !is_ws(s[s.len() - 2]) {
            p.drop_last().push(p.last().push(b))
        } else {
            p.push(seq![b])
        }
    }
}

/// Splits a byte string at runs of ASCII whitespace into its tokens.
pub fn split_ws(s: &[u8]) -> (r: Vec<Vec<u8>>)
    ensures
        views_of(r@) == tokens_spec(s@),
{
    let mut toks: Vec<Vec<u8>> = Vec::new();
    let mut cur: Vec<u8> = Vec::new();
    let mut i: usize = 0;
    proof {
        assert(s@.take(0) =~= Seq::<u8>::empty());
        assert(views_of(toks@) =~= tokens_spec(s@.take(0)));
    }
    while i < s.len()
        invariant
            i <= s@.len(),
            cur@.len() > 0 <==> (i > 0 && !is_ws(s@[i - 1])),
            cur@.len() > 0 ==> tokens_spec(s@.take(i as int)) == views_of(toks@).push(cur@),
            cur@.len() == 0 ==> tokens_spec(s@.take(i as int)) == views_of(toks@),
        decreases s@.len() - i,
    {
        proof {
            assert(s@.take(i + 1).drop_last() =~= s@.take(i as int));
            assert(s@.take(i + 1).last() == s@[i as int]);
            if i >= 1 {
                assert(s@.take(i + 1)[i - 1] == s@[i - 1]);
            }
        }
        let ghost prev_toks = toks@;
        let ghost prev_cur = cur@;
        if byte_is_ws(s[i]) {
            if cur.len() > 0 {
                toks.push(cur);
                cur = Vec::new();
                proof {
                    assert(views_of(toks@) =~= views_of(prev_toks).push(prev_cur));
                }
            }
        } else {
            cur.push(s[i]);
            proof {
                if prev_cur.len() > 0 {
                    let p = tokens_spec(s@.take(i as int));
                    assert(p.drop_last() =~= views_of(prev_toks));
                    assert(p.last() == prev_cur);
                    assert(tokens_spec(s@.take(i + 1)) =~= views_of(toks@).push(cur@));
                } else {
                    assert(cur@ =~= seq![s@[i as int]]);
                    assert(tokens_spec(s@.take(i + 1)) =~= views_of(toks@).push(cur@));
                }
            }
        }
        i = i + 1;
    }
    proof {
        assert(s@.take(s@.len() as int) =~= s@);
    }
    if cur.len() > 0 {
        let ghost prev_toks = toks@;
        let ghost prev_cur = cur@;
        toks.push(cur);
        proof {
            assert(views_of(toks@) =~= views_of(prev_toks).push(prev_cur));
        }
    }
    toks
}

/// An ASCII decimal digit.
pub open spec fn is_digit(b: u8) -> bool {
    48u8 <= b <= 57u8
}

/// Every byte of the sequence is a decimal digit.
pub open spec fn all_digits(s: Seq<u8>) -> bool {
    forall|i: int| 0 <= i < s.len() ==> is_digit(#[trigger] s[i])
}

/// The number that a sequence of decimal digits denotes.
pub open spec fn digits_val(s: Seq<u8>) -> int
    decreases s.len(),
{
    if s.len() == 0 {
        0
    } else {
        digits_val(s.drop_last()) * 10 + (s.last() - 48)
    }
}

proof fn lemma_digits_val_nonneg(s: Seq<u8>)
    requires
        all_digits(s),
    ensures
        digits_val(s) >= 0,
    decreases s.len(),
{
    if s.len() > 0 {
        assert(forall|i: int| 0 <= i < s.drop_last().len() ==> is_digit(#[trigger] s.drop_last()[i]));
        lemma_digits_val_nonneg(s.drop_last());
    }
}

proof fn lemma_digits_val_prefix(s: Seq<u8>, k: int)
    requires
        all_digits(s),
        0 <= k <= s.len(),
    ensures
        digits_val(s) >= digits_val(s.take(k)),
    decreases s.len(),
{
    if s.len() > k {
        assert(forall|i: int| 0 <= i < s.drop_last().len() ==> is_digit(#[trigger] s.drop_last()[i]));
        lemma_digits_val_prefix(s.drop_last(), k);
        assert(s.drop_last().take(k) =~= s.take(k));
        lemma_digits_val_nonneg(s.drop_last());
    } else {
        assert(s.take(k) =~= s);
    }
}

/// The digits of an unsigned decimal: the input with one leading plus
/// sign, if any, removed.
pub open spec fn digits_part(s: Seq<u8>) -> Seq<u8> {
    if s.len() > 0 && s[0] == 43u8 {
        s.skip(1)
    } else {
        s
    }
}

/// What parsing an unsigned decimal number from bytes yields: the
/// value, when past an optional leading plus sign the whole string is
/// one or more digits and the value fits; no value otherwise.
pub open spec fn parsed_u64(s: Seq<u8>) -> Option<u64> {
    let d = digits_part(s);
    if d.len() > 0 && all_digits(d) && digits_val(d) <= u64::MAX {
        Some(digits_val(d) as u64)
    } else {
        None
    }
}

/// Parses a byte string as an unsigned 64-bit decimal number with an
/// optional leading plus sign, rejecting empty input, non-digits and
/// overflow.
pub fn parse_u64_digits(s: &[u8]) -> (r: Option<u64>)
    ensures
        r == parsed_u64(s@),
{
    if s.len() > 0 && s[0] == 43u8 {
        let rest = &s[1..s.len()];
        proof {
            assert(rest@ =~= digits_part(s@));
        }
        parse_digit_run(rest)
    } else {
        parse_digit_run(s)
    }
}

/// Parses a byte string that must be digits alone.
fn parse_digit_run(s: &[u8]) -> (r: Option<u64>)
    ensures
        r == (if s@.len() > 0 && all_digits(s@) && digits_val(s@) <= u64::MAX {
            Some(digits_val(s@) as u64)
        } else {
            None
        }),
{
    if s.len() == 0 {
        return None;
    }
    let mut acc: u64 = 0;
    let mut i: usize = 0;
    proof {
        assert(s@.take(0) =~= Seq::<u8>::empty());
    }
    while i < s.len()
        invariant
            i <= s@.len(),
            s@.len() > 0,
            all_digits(s@.take(i as int)),
            acc == digits_val(s@.take(i as int)),
        decreases s@.len() - i,
    {
        let b = s[i];
        proof {
            assert(s@.take(i + 1).drop_last() =~= s@.take(i as int));
            assert(s@.take(i + 1).last() == s@[i as int]);
        }
        if b < 48 || b > 57 {
            assert(!is_digit(s@[i as int]));
            return None;
        }
        let d = b - 48;
        if acc > 1844674407370955161u64 || (acc == 1844674407370955161u64 && d > 5) {
            proof {
                assert(digits_val(s@.take(i + 1)) > u64::MAX);
                if all_digits(s@) {
                    lemma_digits_val_prefix(s@, i + 1);
                }
            }
            return None;
        }
        acc = acc * 10 + (d as u64);
        i = i + 1;
    }
    proof {
        assert(s@.take(s@.len() as int) =~= s@);
    }
    Some(acc)
}

/// What parsing a decimal number that must fit a `usize` yields.
pub open spec fn parsed_usize(s: Seq<u8>) -> Option<usize> {
    let d = digits_part(s);
    if d.len() > 0 && all_digits(d) && digits_val(d) <= usize::MAX {
        Some(digits_val(d) as usize)
    } else {
        None
    }
}

/// Parses a byte string as an unsigned decimal `usize`.
pub fn parse_usize_digits(s: &[u8]) -> (r: Option<usize>)
    ensures
        r == parsed_usize(s@),
{
    proof {
        assert(usize::MAX == u32::MAX || usize::MAX == u64::MAX);
    }
    match parse_u64_digits(s) {
        Some(v) => {
            proof {
                lemma_digits_val_nonneg(digits_part(s@));
                assert(digits_val(digits_part(s@)) == v as int);
            }
            if v <= usize::MAX as u64 {
                Some(v as usize)
            } else {
                None
            }
        },
        None => {
            proof {
                let d = digits_part(s@);
                if d.len() > 0 && all_digits(d) {
                    assert(digits_val(d) > u64::MAX);
                }
            }
            None
        },
    }
}

/// The needle occurs contiguously somewhere in the haystack.
pub open spec fn contains_sub(h: Seq<u8>, n: Seq<u8>) -> bool {
    exists|i: int| 0 <= i <= h.len() - n.len() && #[trigger] h.subrange(i, i + n.len()) == n
}

fn matches_at(h: &[u8], n: &[u8], i: usize) -> (r: bool)
    requires
        i + n@.len() <= h@.len(),
    ensures
        r == (h@.subrange(i as int, i + n@.len()) == n@),
{
    let hl = h.len();
    let nl = n.len();
    let mut j: usize = 0;
    while j < nl
        invariant
            hl == h@.len(),
            nl == n@.len(),
            i + n@.len() <= h@.len(),
            j <= n@.len(),
            forall|t: int| 0 <= t < j ==> h@[i + t] == n@[t],
        decreases n@.len() - j,
    {
        if h[i + j] != n[j] {
            proof {
                assert(h@.subrange(i as int, i + n@.len())[j as int] == h@[i + j]);
            }
            return false;
        }
        j = j + 1;
    }
    proof {
        assert(h@.subrange(i as int, i + n@.len()) =~= n@);
    }
    true
}

/// Whether the haystack holds the needle as a contiguous substring; an
/// empty needle is found everywhere.
pub fn contains_bytes(h: &[u8], n: &[u8]) -> (r: bool)
    ensures
        r == contains_sub(h@, n@),
{
    if n.len() > h.len() {
        return false;
    }
    if n.len() == 0 {
        proof {
            assert(h@.subrange(0, 0 + n@.len() as int) =~= n@);
            assert(contains_sub(h@, n@));
        }
        return true;
    }
    let hl = h.len();
    let nl = n.len();
    let mut i: usize = 0;
    while i <= hl - nl
        invariant
            hl == h@.len(),
            nl == n@.len(),
            1 <= n@.len() <= h@.len(),
            i <= h@.len() - n@.len() + 1,
            forall|k: int| 0 <= k < i ==> #[trigger] h@.subrange(k, k + n@.len()) != n@,
        decreases h@.len() - n@.len() + 1 - i,
    {
        if matches_at(h, n, i) {
            assert(contains_sub(h@, n@));
            return true;
        }
        i = i + 1;
    }
    false
}

} // verus!
