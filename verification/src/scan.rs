//! The scanner: byte classification and maximal-munch run scanning.
//!
//! Every executable scanning routine is proved equal to a recursive
//! specification function over the input viewed as a `Seq<u8>`; the
//! tokenizer's laws are then stated over those specification functions.

use vstd::prelude::*;

verus! {

// ---------------------------------------------------------------------------
// Byte classes
// ---------------------------------------------------------------------------

/// Space, tab, line feed or carriage return.
pub open spec fn is_ws(b: u8) -> bool {
    b == 32 || b == 9 || b == 10 || b == 13
}

/// ASCII decimal digit.
pub open spec fn is_digit(b: u8) -> bool {
    48 <= b <= 57
}

/// ASCII letter or underscore: a byte that can open an identifier.
pub open spec fn is_ident_start(b: u8) -> bool {
    (65 <= b <= 90) || (97 <= b <= 122) || b == 95
}

/// A byte that can continue an identifier.
pub open spec fn is_ident_cont(b: u8) -> bool {
    is_ident_start(b) || is_digit(b)
}

/// A byte that can continue a digit group: digit or `_` separator.
pub open spec fn is_num_cont(b: u8) -> bool {
    is_digit(b) || b == 95
}

/// A byte that can continue a radix-prefixed digit group: hexadecimal
/// digit (either case) or `_` separator.
pub open spec fn is_hex_cont(b: u8) -> bool {
    is_digit(b) || (97 <= b <= 102) || (65 <= b <= 70) || b == 95
}

/// A byte of a line comment body: anything but a line feed.
pub open spec fn is_line_cont(b: u8) -> bool {
    b != 10
}

/// A byte from which an operator lexeme can be built.
pub open spec fn is_op_byte(b: u8) -> bool {
    b == 33 || b == 37 || b == 38 || b == 42 || b == 43 || b == 45 || b == 46 || b == 47 || b == 58
        || b == 60 || b == 61 || b == 62 || b == 63 || b == 64 || b == 94 || b == 124
}

/// A single-character structural byte: braces, parentheses, square
/// brackets, comma, semicolon.
pub open spec fn is_punct_byte(b: u8) -> bool {
    b == 123 || b == 125 || b == 40 || b == 41 || b == 91 || b == 93 || b == 44 || b == 59
}

/// A byte at which some scanning rule applies. Anything else opens an
/// `Unknown` lexeme that resynchronizes at the next such byte.
pub open spec fn is_known_start(b: u8) -> bool {
    is_ws(b) || is_ident_start(b) || is_digit(b) || b == 34 || b == 39 || b == 35 || is_op_byte(b)
        || is_punct_byte(b)
}

/// An opening bracket that can carry a macro token tree: `(`, `[` or `{`.
pub open spec fn is_open_bracket(b: u8) -> bool {
    b == 40 || b == 91 || b == 123
}

/// The byte classes over which the scanner takes maximal runs.
#[derive(Clone, Copy, Debug, PartialEq, Eq, Structural)]
pub enum ByteClass {
    Ws,
    IdentCont,
    NumCont,
    HexCont,
    LineCont,
    Hash,
    UnknownCont,
}

/// The membership predicate of a byte class.
pub open spec fn class_spec(c: ByteClass) -> spec_fn(u8) -> bool {
    match c {
        ByteClass::Ws => |b: u8| is_ws(b),
        ByteClass::IdentCont => |b: u8| is_ident_cont(b),
        ByteClass::NumCont => |b: u8| is_num_cont(b),
        ByteClass::HexCont => |b: u8| is_hex_cont(b),
        ByteClass::LineCont => |b: u8| is_line_cont(b),
        ByteClass::Hash => |b: u8| b == 35,
        ByteClass::UnknownCont => |b: u8| !is_known_start(b),
    }
}

/// Decides whether `b` can open an identifier.
pub fn ident_start_exec(b: u8) -> (r: bool)
    ensures
        r == is_ident_start(b),
{
    (65 <= b && b <= 90) || (97 <= b && b <= 122) || b == 95
}

/// Decides whether `b` is an ASCII decimal digit.
pub fn digit_exec(b: u8) -> (r: bool)
    ensures
        r == is_digit(b),
{
    48 <= b && b <= 57
}

/// Decides whether `b` is an operator byte.
pub fn op_byte_exec(b: u8) -> (r: bool)
    ensures
        r == is_op_byte(b),
{
    b == 33 || b == 37 || b == 38 || b == 42 || b == 43 || b == 45 || b == 46 || b == 47 || b == 58
        || b == 60 || b == 61 || b == 62 || b == 63 || b == 64 || b == 94 || b == 124
}

/// Decides whether `b` is a structural punctuation byte.
pub fn punct_byte_exec(b: u8) -> (r: bool)
    ensures
        r == is_punct_byte(b),
{
    b == 123 || b == 125 || b == 40 || b == 41 || b == 91 || b == 93 || b == 44 || b == 59
}

/// Decides whether `b` opens a bracketed token tree.
pub fn open_bracket_exec(b: u8) -> (r: bool)
    ensures
        r == is_open_bracket(b),
{
    b == 40 || b == 91 || b == 123
}

/// Decides membership of `b` in class `c`.
pub fn byte_in_class(b: u8, c: ByteClass) -> (r: bool)
    ensures
        r == class_spec(c)(b),
{
    match c {
        ByteClass::Ws => b == 32 || b == 9 || b == 10 || b == 13,
        ByteClass::IdentCont => (65 <= b && b <= 90) || (97 <= b && b <= 122) || b == 95 || (48 <= b
            && b <= 57),
        ByteClass::NumCont => (48 <= b && b <= 57) || b == 95,
        ByteClass::HexCont => (48 <= b && b <= 57) || (97 <= b && b <= 102) || (65 <= b && b <= 70)
            || b == 95,
        ByteClass::LineCont => b != 10,
        ByteClass::Hash => b == 35,
        ByteClass::UnknownCont => !(b == 32 || b == 9 || b == 10 || b == 13 || (65 <= b && b <= 90)
            || (97 <= b && b <= 122) || b == 95 || (48 <= b && b <= 57) || b == 34 || b == 39 || b
            == 35 || b == 33 || b == 37 || b == 38 || b == 42 || b == 43 || b == 45 || b == 46 || b
            == 47 || b == 58 || b == 60 || b == 61 || b == 62 || b == 63 || b == 64 || b == 94 || b
            == 124 || b == 123 || b == 125 || b == 40 || b == 41 || b == 91 || b == 93 || b == 44
            || b == 59),
    }
}

// ---------------------------------------------------------------------------
// Maximal runs
// ---------------------------------------------------------------------------

/// The position just past the maximal run of bytes satisfying `cls`,
/// starting at `i`.
pub open spec fn run_end(s: Seq<u8>, i: int, cls: spec_fn(u8) -> bool) -> int
    decreases s.len() - i,
{
    if 0 <= i < s.len() && cls(s[i]) {
        run_end(s, i + 1, cls)
    } else {
        i
    }
}

/// A run stays within the input, every byte of it satisfies the class,
/// and the run is maximal.
pub proof fn lemma_run_end(s: Seq<u8>, i: int, cls: spec_fn(u8) -> bool)
    requires
        0 <= i <= s.len(),
    ensures
        i <= run_end(s, i, cls) <= s.len(),
        forall|j: int| i <= j < run_end(s, i, cls) ==> cls(s[j]),
        run_end(s, i, cls) < s.len() ==> !cls(s[run_end(s, i, cls)]),
    decreases s.len() - i,
{
    if i < s.len() && cls(s[i]) {
        lemma_run_end(s, i + 1, cls);
    }
}

/// Scans the maximal run of bytes of class `c` starting at `from`.
pub fn scan_run(s: &[u8], from: usize, c: ByteClass) -> (r: usize)
    requires
        from <= s@.len(),
    ensures
        r as int == run_end(s@, from as int, class_spec(c)),
        from <= r <= s@.len(),
{
    let mut i: usize = from;
    while i < s.len() && byte_in_class(s[i], c)
        invariant
            from <= i <= s@.len(),
            run_end(s@, from as int, class_spec(c)) == run_end(s@, i as int, class_spec(c)),
        decreases s@.len() - i,
    {
        i = i + 1;
    }
    i
}

// ---------------------------------------------------------------------------
// Quoted literals
// ---------------------------------------------------------------------------

/// Scans a quoted literal body from `i` (just past the opening quote) to
/// just past the closing quote `q`, skipping backslash escapes. Returns the
/// end position and whether the literal was closed before end of input.
pub open spec fn str_body(s: Seq<u8>, i: int, q: u8) -> (int, bool)
    decreases s.len() - i,
{
    if i < 0 || i >= s.len() {
        (s.len() as int, false)
    } else if s[i] == q {
        (i + 1, true)
    } else if s[i] == 92 && i + 1 < s.len() {
        str_body(s, i + 2, q)
    } else {
        str_body(s, i + 1, q)
    }
}

/// The end of a quoted literal body lies between `i` and the input's end.
pub proof fn lemma_str_body(s: Seq<u8>, i: int, q: u8)
    requires
        0 <= i <= s.len(),
    ensures
        i <= str_body(s, i, q).0 <= s.len(),
    decreases s.len() - i,
{
    if i < s.len() && s[i] != q {
        if s[i] == 92 && i + 1 < s.len() {
            lemma_str_body(s, i + 2, q);
        } else {
            lemma_str_body(s, i + 1, q);
        }
    }
}

/// Scans an escape-aware quoted literal body.
pub fn scan_str_body(s: &[u8], from: usize, q: u8) -> (r: (usize, bool))
    requires
        from <= s@.len(),
    ensures
        r.0 as int == str_body(s@, from as int, q).0,
        r.1 == str_body(s@, from as int, q).1,
        from <= r.0 <= s@.len(),
{
    let mut i: usize = from;
    loop
        invariant
            from <= i <= s@.len(),
            str_body(s@, from as int, q) == str_body(s@, i as int, q),
        decreases s@.len() - i,
    {
        if i >= s.len() {
            return (s.len(), false);
        }
        let b = s[i];
        if b == q {
            proof {
                lemma_str_body(s@, from as int, q);
            }
            return (i + 1, true);
        }
        if b == 92 && i + 1 < s.len() {
            i = i + 2;
        } else {
            i = i + 1;
        }
    }
}

// ---------------------------------------------------------------------------
// Block comments
// ---------------------------------------------------------------------------

/// Scans a block comment body from `i` (just past the opening `/*`) at
/// nesting depth `depth`: each `/*` deepens, each `*/` closes one level,
/// and the comment ends just past the `*/` that returns to depth zero.
pub open spec fn block_end(s: Seq<u8>, i: int, depth: int) -> (int, bool)
    decreases s.len() - i,
{
    if i < 0 || i >= s.len() {
        (s.len() as int, false)
    } else if s[i] == 42 && i + 1 < s.len() && s[i + 1] == 47 {
        if depth <= 1 {
            (i + 2, true)
        } else {
            block_end(s, i + 2, depth - 1)
        }
    } else if s[i] == 47 && i + 1 < s.len() && s[i + 1] == 42 {
        block_end(s, i + 2, depth + 1)
    } else {
        block_end(s, i + 1, depth)
    }
}

/// The end of a block comment body lies between `i` and the input's end.
pub proof fn lemma_block_end(s: Seq<u8>, i: int, depth: int)
    requires
        0 <= i <= s.len(),
    ensures
        i <= block_end(s, i, depth).0 <= s.len(),
    decreases s.len() - i,
{
    if i < s.len() {
        if s[i] == 42 && i + 1 < s.len() && s[i + 1] == 47 {
            if depth > 1 {
                lemma_block_end(s, i + 2, depth - 1);
            }
        } else if s[i] == 47 && i + 1 < s.len() && s[i + 1] == 42 {
            lemma_block_end(s, i + 2, depth + 1);
        } else {
            lemma_block_end(s, i + 1, depth);
        }
    }
}

/// Scans a nested block comment body.
pub fn scan_block_body(s: &[u8], from: usize, depth0: usize) -> (r: (usize, bool))
    requires
        from <= s@.len(),
        1 <= depth0 <= from,
    ensures
        r.0 as int == block_end(s@, from as int, depth0 as int).0,
        r.1 == block_end(s@, from as int, depth0 as int).1,
        from <= r.0 <= s@.len(),
{
    let mut i: usize = from;
    let mut depth: usize = depth0;
    loop
        invariant
            from <= i <= s@.len(),
            1 <= depth <= i,
            block_end(s@, from as int, depth0 as int) == block_end(s@, i as int, depth as int),
        decreases s@.len() - i,
    {
        if i >= s.len() {
            return (s.len(), false);
        }
        let b = s[i];
        if b == 42 && i + 1 < s.len() && s[i + 1] == 47 {
            if depth == 1 {
                proof {
                    lemma_block_end(s@, from as int, depth0 as int);
                }
                return (i + 2, true);
            }
            depth = depth - 1;
            i = i + 2;
        } else if b == 47 && i + 1 < s.len() && s[i + 1] == 42 {
            depth = depth + 1;
            i = i + 2;
        } else {
            i = i + 1;
        }
    }
}

// ---------------------------------------------------------------------------
// Raw strings
// ---------------------------------------------------------------------------

/// `n` hash bytes stand at position `i`.
pub open spec fn hashes_at(s: Seq<u8>, i: int, n: int) -> bool {
    i + n <= s.len() && forall|k: int| i <= k < i + n ==> s[k] == 35
}

/// Scans a raw string body from `i` (just past the opening quote): it is
/// closed only by a quote followed by `n` hash bytes, the count that opened
/// it. The end lies just past those hashes.
pub open spec fn raw_body(s: Seq<u8>, i: int, n: int) -> (int, bool)
    decreases s.len() - i,
{
    if i < 0 || i >= s.len() {
        (s.len() as int, false)
    } else if s[i] == 34 && hashes_at(s, i + 1, n) {
        (i + 1 + n, true)
    } else {
        raw_body(s, i + 1, n)
    }
}

/// The end of a raw string body lies between `i` and the input's end.
pub proof fn lemma_raw_body(s: Seq<u8>, i: int, n: int)
    requires
        0 <= i <= s.len(),
        0 <= n,
    ensures
        i <= raw_body(s, i, n).0 <= s.len(),
    decreases s.len() - i,
{
    if i < s.len() && !(s[i] == 34 && hashes_at(s, i + 1, n)) {
        lemma_raw_body(s, i + 1, n);
    }
}

/// Decides whether `n` hash bytes stand at position `from`.
pub fn hashes_at_exec(s: &[u8], from: usize, n: usize) -> (r: bool)
    requires
        from <= s@.len(),
    ensures
        r == hashes_at(s@, from as int, n as int),
{
    let len: usize = s.len();
    if n > len - from {
        return false;
    }
    let mut k: usize = 0;
    while k < n
        invariant
            0 <= k <= n,
            from + n <= len,
            len == s@.len(),
            forall|j: int| from <= j < from + k ==> s@[j] == 35,
        decreases n - k,
    {
        if s[from + k] != 35 {
            return false;
        }
        k = k + 1;
    }
    true
}

/// Scans a raw string body opened with `n` hashes.
pub fn scan_raw_body(s: &[u8], from: usize, n: usize) -> (r: (usize, bool))
    requires
        from <= s@.len(),
    ensures
        r.0 as int == raw_body(s@, from as int, n as int).0,
        r.1 == raw_body(s@, from as int, n as int).1,
        from <= r.0 <= s@.len(),
{
    let mut i: usize = from;
    loop
        invariant
            from <= i <= s@.len(),
            raw_body(s@, from as int, n as int) == raw_body(s@, i as int, n as int),
        decreases s@.len() - i,
    {
        if i >= s.len() {
            return (s.len(), false);
        }
        if s[i] == 34 && hashes_at_exec(s, i + 1, n) {
            proof {
                lemma_raw_body(s@, from as int, n as int);
            }
            return (i + 1 + n, true);
        }
        i = i + 1;
    }
}

// ---------------------------------------------------------------------------
// Attributes
// ---------------------------------------------------------------------------

/// Scans an attribute body from `i` (just past the opening `[`): nested
/// square brackets deepen and close, a backslash escapes the next byte,
/// and the attribute ends just past the `]` that returns to depth zero.
pub open spec fn attr_body(s: Seq<u8>, i: int, depth: int) -> (int, bool)
    decreases s.len() - i,
{
    if i < 0 || i >= s.len() {
        (s.len() as int, false)
    } else if s[i] == 93 {
        if depth <= 1 {
            (i + 1, true)
        } else {
            attr_body(s, i + 1, depth - 1)
        }
    } else if s[i] == 91 {
        attr_body(s, i + 1, depth + 1)
    } else if s[i] == 92 && i + 1 < s.len() {
        attr_body(s, i + 2, depth)
    } else {
        attr_body(s, i + 1, depth)
    }
}

/// The end of an attribute body lies between `i` and the input's end.
pub proof fn lemma_attr_body(s: Seq<u8>, i: int, depth: int)
    requires
        0 <= i <= s.len(),
    ensures
        i <= attr_body(s, i, depth).0 <= s.len(),
    decreases s.len() - i,
{
    if i < s.len() {
        if s[i] == 93 {
            if depth > 1 {
                lemma_attr_body(s, i + 1, depth - 1);
            }
        } else if s[i] == 91 {
            lemma_attr_body(s, i + 1, depth + 1);
        } else if s[i] == 92 && i + 1 < s.len() {
            lemma_attr_body(s, i + 2, depth);
        } else {
            lemma_attr_body(s, i + 1, depth);
        }
    }
}

/// Scans a bracket-balanced attribute body.
pub fn scan_attr_body(s: &[u8], from: usize, depth0: usize) -> (r: (usize, bool))
    requires
        from <= s@.len(),
        1 <= depth0 <= from,
    ensures
        r.0 as int == attr_body(s@, from as int, depth0 as int).0,
        r.1 == attr_body(s@, from as int, depth0 as int).1,
        from <= r.0 <= s@.len(),
{
    let mut i: usize = from;
    let mut depth: usize = depth0;
    loop
        invariant
            from <= i <= s@.len(),
            1 <= depth <= i,
            attr_body(s@, from as int, depth0 as int) == attr_body(s@, i as int, depth as int),
        decreases s@.len() - i,
    {
        if i >= s.len() {
            return (s.len(), false);
        }
        let b = s[i];
        if b == 93 {
            if depth == 1 {
                proof {
                    lemma_attr_body(s@, from as int, depth0 as int);
                }
                return (i + 1, true);
            }
            depth = depth - 1;
            i = i + 1;
        } else if b == 91 {
            depth = depth + 1;
            i = i + 1;
        } else if b == 92 && i + 1 < s.len() {
            i = i + 2;
        } else {
            i = i + 1;
        }
    }
}

// ---------------------------------------------------------------------------
// Numeric literals
// ---------------------------------------------------------------------------

/// The end of the trailing type suffix at `d`: an identifier-shaped run
/// with no intervening whitespace, or `d` itself when none begins there.
pub open spec fn suffix_end(s: Seq<u8>, d: int) -> int {
    if 0 <= d < s.len() && is_ident_start(s[d]) {
        run_end(s, d, class_spec(ByteClass::IdentCont))
    } else {
        d
    }
}

/// The end of the numeric literal beginning at `i`: an optional radix
/// prefix `0x`/`0o`/`0b`, digit groups with `_` separators, for plain
/// decimals an optional fraction introduced by `.` followed by a digit,
/// and a trailing type suffix.
pub open spec fn num_end(s: Seq<u8>, i: int) -> int {
    if i < 0 || i >= s.len() {
        s.len() as int
    } else if s[i] == 48 && i + 1 < s.len() && (s[i + 1] == 120 || s[i + 1] == 111 || s[i + 1]
        == 98) {
        suffix_end(s, run_end(s, i + 2, class_spec(ByteClass::HexCont)))
    } else {
        let d = run_end(s, i, class_spec(ByteClass::NumCont));
        if d + 1 < s.len() && s[d] == 46 && is_digit(s[d + 1]) {
            suffix_end(s, run_end(s, d + 1, class_spec(ByteClass::NumCont)))
        } else {
            suffix_end(s, d)
        }
    }
}

/// The end of a numeric literal lies between `i` and the input's end.
pub proof fn lemma_num_end(s: Seq<u8>, i: int)
    requires
        0 <= i <= s.len(),
    ensures
        i <= num_end(s, i) <= s.len(),
        i < s.len() && is_digit(s[i]) ==> i < num_end(s, i),
{
    if i < s.len() {
        if s[i] == 48 && i + 1 < s.len() && (s[i + 1] == 120 || s[i + 1] == 111 || s[i + 1]
            == 98) {
            lemma_run_end(s, i + 2, class_spec(ByteClass::HexCont));
            lemma_suffix_end(s, run_end(s, i + 2, class_spec(ByteClass::HexCont)));
        } else {
            lemma_run_end(s, i, class_spec(ByteClass::NumCont));
            if is_digit(s[i]) {
                assert(class_spec(ByteClass::NumCont)(s[i]));
                lemma_run_end(s, i + 1, class_spec(ByteClass::NumCont));
            }
            let d = run_end(s, i, class_spec(ByteClass::NumCont));
            if d + 1 < s.len() && s[d] == 46 && is_digit(s[d + 1]) {
                lemma_run_end(s, d + 1, class_spec(ByteClass::NumCont));
                lemma_suffix_end(s, run_end(s, d + 1, class_spec(ByteClass::NumCont)));
            } else {
                lemma_suffix_end(s, d);
            }
        }
    }
}

/// The suffix end never moves backwards and stays within the input.
pub proof fn lemma_suffix_end(s: Seq<u8>, d: int)
    requires
        0 <= d <= s.len(),
    ensures
        d <= suffix_end(s, d) <= s.len(),
{
    if d < s.len() && is_ident_start(s[d]) {
        lemma_run_end(s, d, class_spec(ByteClass::IdentCont));
    }
}

/// Scans the trailing type suffix, if one begins at `d`.
pub fn scan_suffix(s: &[u8], d: usize) -> (r: usize)
    requires
        d <= s@.len(),
    ensures
        r as int == suffix_end(s@, d as int),
        d <= r <= s@.len(),
{
    proof {
        lemma_suffix_end(s@, d as int);
    }
    if d < s.len() && ident_start_exec(s[d]) {
        scan_run(s, d, ByteClass::IdentCont)
    } else {
        d
    }
}

/// Scans a numeric literal beginning at `from`.
pub fn scan_number(s: &[u8], from: usize) -> (r: usize)
    requires
        from < s@.len(),
        is_digit(s@[from as int]),
    ensures
        r as int == num_end(s@, from as int),
        from <= r <= s@.len(),
{
    proof {
        lemma_num_end(s@, from as int);
    }
    if s[from] == 48 && from + 1 < s.len() && (s[from + 1] == 120 || s[from + 1] == 111 || s[from
        + 1] == 98) {
        let d = scan_run(s, from + 2, ByteClass::HexCont);
        scan_suffix(s, d)
    } else {
        let d = scan_run(s, from, ByteClass::NumCont);
        if d < s.len() && s[d] == 46 && d + 1 < s.len() && digit_exec(s[d + 1]) {
            let d2 = scan_run(s, d + 1, ByteClass::NumCont);
            scan_suffix(s, d2)
        } else {
            scan_suffix(s, d)
        }
    }
}

} // verus!
