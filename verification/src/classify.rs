//! The classifier: the reserved-word table and the operator table.
//!
//! Keyword determination is an exact membership test against a fixed closed
//! set of reserved words; operator lexemes are matched longest-prefix
//! against a fixed table of multi-character operator graphemes.

use vstd::prelude::*;
use vstd::string::StringSliceAdditionalSpecFns;

verus! {

/// Membership in the fixed closed set of reserved words. A lexeme that
/// spells a reserved word always classifies as a keyword, never as an
/// identifier, whatever its context.
pub open spec fn spec_is_keyword(t: Seq<u8>) -> bool {
    ||| t == ("as").spec_bytes()
    ||| t == ("async").spec_bytes()
    ||| t == ("await").spec_bytes()
    ||| t == ("break").spec_bytes()
    ||| t == ("const").spec_bytes()
    ||| t == ("continue").spec_bytes()
    ||| t == ("crate").spec_bytes()
    ||| t == ("dyn").spec_bytes()
    ||| t == ("else").spec_bytes()
    ||| t == ("enum").spec_bytes()
    ||| t == ("false").spec_bytes()
    ||| t == ("fn").spec_bytes()
    ||| t == ("for").spec_bytes()
    ||| t == ("if").spec_bytes()
    ||| t == ("impl").spec_bytes()
    ||| t == ("in").spec_bytes()
    ||| t == ("let").spec_bytes()
    ||| t == ("loop").spec_bytes()
    ||| t == ("match").spec_bytes()
    ||| t == ("mod").spec_bytes()
    ||| t == ("move").spec_bytes()
    ||| t == ("mut").spec_bytes()
    ||| t == ("pub").spec_bytes()
    ||| t == ("ref").spec_bytes()
    ||| t == ("return").spec_bytes()
    ||| t == ("self").spec_bytes()
    ||| t == ("Self").spec_bytes()
    ||| t == ("static").spec_bytes()
    ||| t == ("struct").spec_bytes()
    ||| t == ("super").spec_bytes()
    ||| t == ("trait").spec_bytes()
    ||| t == ("true").spec_bytes()
    ||| t == ("type").spec_bytes()
    ||| t == ("unsafe").spec_bytes()
    ||| t == ("use").spec_bytes()
    ||| t == ("where").spec_bytes()
    ||| t == ("while").spec_bytes()
}

/// Decides whether `s[start..end]` equals the word `w`, byte for byte.
pub fn range_matches(s: &[u8], start: usize, end: usize, w: &[u8]) -> (r: bool)
    requires
        start <= end <= s@.len(),
    ensures
        r == (s@.subrange(start as int, end as int) == w@),
{
    if end - start != w.len() {
        assert(s@.subrange(start as int, end as int).len() != w@.len());
        return false;
    }
    let mut k: usize = 0;
    while k < w.len()
        invariant
            0 <= k <= w@.len(),
            start + w@.len() == end,
            end <= s@.len(),
            forall|j: int| 0 <= j < k ==> s@[start + j] == w@[j],
        decreases w@.len() - k,
    {
        if s[start + k] != w[k] {
            assert(s@.subrange(start as int, end as int)[k as int] != w@[k as int]);
            return false;
        }
        k = k + 1;
    }
    assert(s@.subrange(start as int, end as int) =~= w@);
    true
}

/// Decides whether the lexeme `s[start..end]` is a reserved word.
pub fn is_keyword(s: &[u8], start: usize, end: usize) -> (r: bool)
    requires
        start <= end <= s@.len(),
    ensures
        r == spec_is_keyword(s@.subrange(start as int, end as int)),
{
    range_matches(s, start, end, ("as").as_bytes()) || range_matches(s, start, end,
        ("async").as_bytes()) || range_matches(s, start, end, ("await").as_bytes()) ||
        range_matches(s, start, end, ("break").as_bytes()) || range_matches(s, start, end,
        ("const").as_bytes()) || range_matches(s, start, end, ("continue").as_bytes()) ||
        range_matches(s, start, end, ("crate").as_bytes()) || range_matches(s, start, end,
        ("dyn").as_bytes()) || range_matches(s, start, end, ("else").as_bytes()) || range_matches(s,
        start, end, ("enum").as_bytes()) || range_matches(s, start, end, ("false").as_bytes()) ||
        range_matches(s, start, end, ("fn").as_bytes()) || range_matches(s, start, end,
        ("for").as_bytes()) || range_matches(s, start, end, ("if").as_bytes()) || range_matches(s,
        start, end, ("impl").as_bytes()) || range_matches(s, start, end, ("in").as_bytes()) ||
        range_matches(s, start, end, ("let").as_bytes()) || range_matches(s, start, end,
        ("loop").as_bytes()) || range_matches(s, start, end, ("match").as_bytes()) ||
        range_matches(s, start, end, ("mod").as_bytes()) || range_matches(s, start, end,
        ("move").as_bytes()) || range_matches(s, start, end, ("mut").as_bytes()) || range_matches(s,
        start, end, ("pub").as_bytes()) || range_matches(s, start, end, ("ref").as_bytes()) ||
        range_matches(s, start, end, ("return").as_bytes()) || range_matches(s, start, end,
        ("self").as_bytes()) || range_matches(s, start, end, ("Self").as_bytes()) ||
        range_matches(s, start, end, ("static").as_bytes()) || range_matches(s, start, end,
        ("struct").as_bytes()) || range_matches(s, start, end, ("super").as_bytes()) ||
        range_matches(s, start, end, ("trait").as_bytes()) || range_matches(s, start, end,
        ("true").as_bytes()) || range_matches(s, start, end, ("type").as_bytes()) ||
        range_matches(s, start, end, ("unsafe").as_bytes()) || range_matches(s, start, end,
        ("use").as_bytes()) || range_matches(s, start, end, ("where").as_bytes()) ||
        range_matches(s, start, end, ("while").as_bytes())
}

/// A three-byte operator grapheme stands at `i`: `<<=`, `>>=` or `..=`.
pub open spec fn op3_at(s: Seq<u8>, i: int) -> bool {
    i + 3 <= s.len() && {
        ||| (s[i] == 60 && s[i + 1] == 60 && s[i + 2] == 61)
        ||| (s[i] == 62 && s[i + 1] == 62 && s[i + 2] == 61)
        ||| (s[i] == 46 && s[i + 1] == 46 && s[i + 2] == 61)
    }
}

/// A two-byte operator grapheme stands at `i`: one of `::`, `->`, `=>`,
/// `..`, `&&`, `||`, the comparisons and the compound assignments.
pub open spec fn op2_at(s: Seq<u8>, i: int) -> bool {
    i + 2 <= s.len() && {
        ||| (s[i] == 58 && s[i + 1] == 58)
        ||| (s[i] == 45 && s[i + 1] == 62)
        ||| (s[i] == 61 && s[i + 1] == 62)
        ||| (s[i] == 46 && s[i + 1] == 46)
        ||| (s[i] == 38 && s[i + 1] == 38)
        ||| (s[i] == 124 && s[i + 1] == 124)
        ||| (s[i] == 61 && s[i + 1] == 61)
        ||| (s[i] == 33 && s[i + 1] == 61)
        ||| (s[i] == 60 && s[i + 1] == 61)
        ||| (s[i] == 62 && s[i + 1] == 61)
        ||| (s[i] == 60 && s[i + 1] == 60)
        ||| (s[i] == 62 && s[i + 1] == 62)
        ||| (s[i] == 43 && s[i + 1] == 61)
        ||| (s[i] == 45 && s[i + 1] == 61)
        ||| (s[i] == 42 && s[i + 1] == 61)
        ||| (s[i] == 47 && s[i + 1] == 61)
        ||| (s[i] == 37 && s[i + 1] == 61)
        ||| (s[i] == 38 && s[i + 1] == 61)
        ||| (s[i] == 124 && s[i + 1] == 61)
        ||| (s[i] == 94 && s[i + 1] == 61)
    }
}

/// The length of the operator lexeme at `i`, by longest-prefix match:
/// three bytes, else two, else the single operator byte.
pub open spec fn op_len(s: Seq<u8>, i: int) -> int {
    if op3_at(s, i) {
        3
    } else if op2_at(s, i) {
        2
    } else {
        1
    }
}

/// Scans the operator lexeme at `i` and returns its end.
pub fn scan_operator(s: &[u8], i: usize) -> (r: usize)
    requires
        i < s@.len(),
    ensures
        r as int == i + op_len(s@, i as int),
        i < r <= s@.len(),
{
    let len: usize = s.len();
    let b0 = s[i];
    if len - i >= 3 {
        let b1 = s[i + 1];
        let b2 = s[i + 2];
        if (b0 == 60 && b1 == 60 && b2 == 61) || (b0 == 62 && b1 == 62 && b2 == 61) || (b0 == 46
            && b1 == 46 && b2 == 61) {
            return i + 3;
        }
    }
    if len - i >= 2 {
        let b1 = s[i + 1];
        if (b0 == 58 && b1 == 58) || (b0 == 45 && b1 == 62) || (b0 == 61 && b1 == 62) || (b0 == 46
            && b1 == 46) || (b0 == 38 && b1 == 38) || (b0 == 124 && b1 == 124) || (b0 == 61 && b1
            == 61) || (b0 == 33 && b1 == 61) || (b0 == 60 && b1 == 61) || (b0 == 62 && b1 == 61)
            || (b0 == 60 && b1 == 60) || (b0 == 62 && b1 == 62) || (b0 == 43 && b1 == 61) || (b0
            == 45 && b1 == 61) || (b0 == 42 && b1 == 61) || (b0 == 47 && b1 == 61) || (b0 == 37
            && b1 == 61) || (b0 == 38 && b1 == 61) || (b0 == 124 && b1 == 61) || (b0 == 94 && b1
            == 61) {
            return i + 2;
        }
    }
    i + 1
}

} // verus!
