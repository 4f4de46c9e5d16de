//! The tokenizer: the token stream over an input buffer, and its laws.
//!
//! `next_span` is the specification of one scanning step: from a position
//! it decides the category, the end and the unterminated flag of the next
//! lexeme by maximal munch. `spec_tokens` iterates it over the whole input.
//! The executable tokenizer is proved to emit exactly `spec_tokens`, and
//! the laws at the end of this module state that the emitted spans tile
//! the input exactly — no byte is lost or covered twice — and that
//! re-tokenizing the reconstruction yields the same token sequence.

use vstd::prelude::*;

use crate::classify::{is_keyword, op_len, scan_operator, spec_is_keyword};
use crate::context::{BracketKind, ContextFrame, ContextStack};
use crate::scan::{
    attr_body, block_end, byte_in_class, class_spec, digit_exec, ident_start_exec, is_digit,
    is_ident_start, is_known_start, is_op_byte, is_open_bracket, is_punct_byte, is_ws, num_end,
    op_byte_exec, open_bracket_exec, punct_byte_exec, raw_body, run_end, scan_attr_body,
    scan_block_body, scan_number, scan_raw_body, scan_run, scan_str_body, str_body, ByteClass,
};
use crate::token::{CommentKind, Token, TokenCategory};

verus! {

/// A raw string opens at `i`: the byte there is `r`, and the run of hash
/// bytes after it is followed by a double quote.
pub open spec fn raw_opens(s: Seq<u8>, i: int) -> bool {
    let h = run_end(s, i + 1, class_spec(ByteClass::Hash));
    h < s.len() && s[h] == 34
}

/// One scanning step for a lexeme that opens like an identifier: a macro
/// invocation when the run is followed directly by `!` and an opening
/// bracket, else a keyword when the run spells a reserved word, else an
/// identifier.
pub open spec fn ident_span(s: Seq<u8>, i: int) -> (int, TokenCategory, bool) {
    let e = run_end(s, i, class_spec(ByteClass::IdentCont));
    if e < s.len() && s[e] == 33 && e + 1 < s.len() && is_open_bracket(s[e + 1]) {
        (e + 1, TokenCategory::MacroInvocation, false)
    } else if spec_is_keyword(s.subrange(i, e)) {
        (e, TokenCategory::Keyword, false)
    } else {
        (e, TokenCategory::Identifier, false)
    }
}

/// One scanning step: the end, the category and the unterminated flag of
/// the lexeme that begins at `i`, under maximal munch.
pub open spec fn next_span(s: Seq<u8>, i: int) -> (int, TokenCategory, bool) {
    if i < 0 || i >= s.len() {
        (s.len() as int, TokenCategory::Unknown, false)
    } else {
        let b = s[i];
        if is_ws(b) {
            (run_end(s, i, class_spec(ByteClass::Ws)), TokenCategory::Whitespace, false)
        } else if b == 47 && i + 1 < s.len() && s[i + 1] == 47 {
            (
                run_end(s, i + 2, class_spec(ByteClass::LineCont)),
                TokenCategory::Comment(CommentKind::Line),
                false,
            )
        } else if b == 47 && i + 1 < s.len() && s[i + 1] == 42 {
            let (e, ok) = block_end(s, i + 2, 1);
            (e, TokenCategory::Comment(CommentKind::Block), !ok)
        } else if b == 114 && raw_opens(s, i) {
            let h = run_end(s, i + 1, class_spec(ByteClass::Hash));
            let (e, ok) = raw_body(s, h + 1, h - (i + 1));
            (e, TokenCategory::RawStringLiteral, !ok)
        } else if b == 98 && i + 1 < s.len() && s[i + 1] == 34 {
            let (e, ok) = str_body(s, i + 2, 34);
            (e, TokenCategory::ByteStringLiteral, !ok)
        } else if b == 98 && i + 1 < s.len() && s[i + 1] == 39 {
            let (e, ok) = str_body(s, i + 2, 39);
            (e, TokenCategory::CharLiteral, !ok)
        } else if is_ident_start(b) {
            ident_span(s, i)
        } else if is_digit(b) {
            (num_end(s, i), TokenCategory::NumericLiteral, false)
        } else if b == 34 {
            let (e, ok) = str_body(s, i + 1, 34);
            (e, TokenCategory::StringLiteral, !ok)
        } else if b == 39 {
            if i + 1 < s.len() && is_ident_start(s[i + 1]) && !(i + 2 < s.len() && s[i + 2]
                == 39) {
                (run_end(s, i + 1, class_spec(ByteClass::IdentCont)), TokenCategory::Lifetime, false)
            } else {
                let (e, ok) = str_body(s, i + 1, 39);
                (e, TokenCategory::CharLiteral, !ok)
            }
        } else if b == 35 {
            if i + 1 < s.len() && s[i + 1] == 91 {
                let (e, ok) = attr_body(s, i + 2, 1);
                (e, TokenCategory::Attribute, !ok)
            } else if s.len() - i > 2 && s[i + 1] == 33 && s[i + 2] == 91 {
                let (e, ok) = attr_body(s, i + 3, 1);
                (e, TokenCategory::Attribute, !ok)
            } else {
                (i + 1, TokenCategory::Unknown, false)
            }
        } else if is_op_byte(b) {
            (i + op_len(s, i), TokenCategory::Operator, false)
        } else if is_punct_byte(b) {
            (i + 1, TokenCategory::Punctuation, false)
        } else {
            (run_end(s, i, class_spec(ByteClass::UnknownCont)), TokenCategory::Unknown, false)
        }
    }
}

/// Every scanning step makes progress and stays within the input; a macro
/// invocation lexeme is always followed directly by its opening bracket.
pub proof fn lemma_next_span(s: Seq<u8>, i: int)
    requires
        0 <= i < s.len(),
    ensures
        i < next_span(s, i).0 <= s.len(),
        next_span(s, i).1 == TokenCategory::MacroInvocation ==> next_span(s, i).0 < s.len()
            && is_open_bracket(s[next_span(s, i).0]),
{
    let b = s[i];
    if is_ws(b) {
        assert(class_spec(ByteClass::Ws)(b));
        crate::scan::lemma_run_end(s, i + 1, class_spec(ByteClass::Ws));
    } else if b == 47 && i + 1 < s.len() && s[i + 1] == 47 {
        crate::scan::lemma_run_end(s, i + 2, class_spec(ByteClass::LineCont));
    } else if b == 47 && i + 1 < s.len() && s[i + 1] == 42 {
        crate::scan::lemma_block_end(s, i + 2, 1);
    } else if b == 114 && raw_opens(s, i) {
        crate::scan::lemma_run_end(s, i + 1, class_spec(ByteClass::Hash));
        let h = run_end(s, i + 1, class_spec(ByteClass::Hash));
        crate::scan::lemma_raw_body(s, h + 1, h - (i + 1));
    } else if b == 98 && i + 1 < s.len() && s[i + 1] == 34 {
        crate::scan::lemma_str_body(s, i + 2, 34);
    } else if b == 98 && i + 1 < s.len() && s[i + 1] == 39 {
        crate::scan::lemma_str_body(s, i + 2, 39);
    } else if is_ident_start(b) {
        assert(class_spec(ByteClass::IdentCont)(b));
        crate::scan::lemma_run_end(s, i + 1, class_spec(ByteClass::IdentCont));
    } else if is_digit(b) {
        crate::scan::lemma_num_end(s, i);
    } else if b == 34 {
        crate::scan::lemma_str_body(s, i + 1, 34);
    } else if b == 39 {
        if i + 1 < s.len() && is_ident_start(s[i + 1]) && !(i + 2 < s.len() && s[i + 2] == 39) {
            assert(class_spec(ByteClass::IdentCont)(s[i + 1]));
            crate::scan::lemma_run_end(s, i + 2, class_spec(ByteClass::IdentCont));
        } else {
            crate::scan::lemma_str_body(s, i + 1, 39);
        }
    } else if b == 35 {
        if i + 1 < s.len() && s[i + 1] == 91 {
            crate::scan::lemma_attr_body(s, i + 2, 1);
        } else if i + 2 < s.len() && s[i + 1] == 33 && s[i + 2] == 91 {
            crate::scan::lemma_attr_body(s, i + 3, 1);
        }
    } else if is_op_byte(b) {
    } else if is_punct_byte(b) {
    } else {
        assert(!is_known_start(b));
        assert(class_spec(ByteClass::UnknownCont)(b));
        crate::scan::lemma_run_end(s, i + 1, class_spec(ByteClass::UnknownCont));
    }
}

/// The end of the lexeme at `i`, clamped so that every step advances by
/// at least one byte and never leaves the input.
pub open spec fn span_end(s: Seq<u8>, i: int) -> int {
    let e = next_span(s, i).0;
    if e <= i {
        i + 1
    } else if e > s.len() {
        s.len() as int
    } else {
        e
    }
}

/// The token emitted at position `i`.
pub open spec fn token_of(s: Seq<u8>, i: int) -> Token {
    Token {
        category: next_span(s, i).1,
        start: i as usize,
        end: span_end(s, i) as usize,
        unterminated: next_span(s, i).2,
    }
}

/// The token sequence emitted from position `i` to the end of the input.
pub open spec fn spec_tokens_from(s: Seq<u8>, i: int) -> Seq<Token>
    decreases s.len() - i,
{
    if i < 0 || i >= s.len() {
        Seq::empty()
    } else {
        seq![token_of(s, i)] + spec_tokens_from(s, span_end(s, i))
    }
}

/// The token sequence of a whole input.
pub open spec fn spec_tokens(s: Seq<u8>) -> Seq<Token> {
    spec_tokens_from(s, 0)
}

/// The concatenation of the texts of the given spans, read out of `s`.
pub open spec fn spans_text(s: Seq<u8>, toks: Seq<Token>) -> Seq<u8>
    decreases toks.len(),
{
    if toks.len() == 0 {
        Seq::empty()
    } else {
        s.subrange(toks[0].start as int, toks[0].end as int) + spans_text(s, toks.skip(1))
    }
}

/// The emitted spans are contiguous and non-overlapping: the first starts
/// at `i`, each ends where the next starts, every span is non-empty and in
/// bounds, and the last ends at the input's end.
#[verifier::rlimit(100)]
pub proof fn lemma_tokens_chain(s: Seq<u8>, i: int)
    requires
        0 <= i <= s.len() <= usize::MAX,
    ensures
        spec_tokens_from(s, i).len() == 0 <==> i == s.len(),
        spec_tokens_from(s, i).len() > 0 ==> spec_tokens_from(s, i)[0].start == i,
        spec_tokens_from(s, i).len() > 0 ==> spec_tokens_from(s, i).last().end == s.len(),
        forall|k: int|
            0 <= k < spec_tokens_from(s, i).len() ==> (#[trigger] spec_tokens_from(s, i)[k]).start
                < spec_tokens_from(s, i)[k].end <= s.len(),
        forall|k: int|
            0 <= k < spec_tokens_from(s, i).len() - 1 ==> (#[trigger] spec_tokens_from(
                s,
                i,
            )[k]).end == spec_tokens_from(s, i)[k + 1].start,
    decreases s.len() - i,
{
    if i < s.len() {
        lemma_next_span(s, i);
        let t = token_of(s, i);
        let e = span_end(s, i);
        let toks = spec_tokens_from(s, i);
        let rest = spec_tokens_from(s, e);
        lemma_tokens_chain(s, e);
        assert(toks == seq![t] + rest);
        assert(toks[0] == t);
        assert(forall|k: int| 1 <= k < toks.len() ==> toks[k] == rest[k - 1]);
        assert(t.start == i && t.end as int == e);
        if rest.len() > 0 {
            assert(toks.last() == rest.last());
            assert(toks[1] == rest[0]);
        }
        assert forall|k: int| 0 <= k < toks.len() - 1 implies (#[trigger] toks[k]).end == toks[k
            + 1].start by {
            if k == 0 {
                assert(rest.len() > 0);
                assert(toks[1] == rest[0]);
            } else {
                assert(toks[k] == rest[k - 1]);
                assert(toks[k + 1] == rest[k]);
            }
        }
    }
}

/// The texts of the spans emitted from `i` concatenate to exactly the
/// remainder of the input from `i`.
pub proof fn lemma_tokens_cover(s: Seq<u8>, i: int)
    requires
        0 <= i <= s.len() <= usize::MAX,
    ensures
        spans_text(s, spec_tokens_from(s, i)) == s.subrange(i, s.len() as int),
    decreases s.len() - i,
{
    if i >= s.len() {
        assert(spans_text(s, spec_tokens_from(s, i)) =~= s.subrange(i, s.len() as int));
    } else {
        lemma_next_span(s, i);
        let t = token_of(s, i);
        let e = span_end(s, i);
        let rest = spec_tokens_from(s, e);
        lemma_tokens_cover(s, e);
        let toks = spec_tokens_from(s, i);
        assert(toks == seq![t] + rest);
        assert(toks[0] == t);
        assert(toks.skip(1) =~= rest);
        assert(t.start == i && t.end as int == e);
        assert(spans_text(s, toks) == s.subrange(i, e) + spans_text(s, rest));
        assert(s.subrange(i, e) + s.subrange(e, s.len() as int) =~= s.subrange(
            i,
            s.len() as int,
        ));
    }
}

/// Law (totality): concatenating the texts of all emitted spans
/// reconstructs the input exactly; no byte range is lost, duplicated or
/// reordered.
pub proof fn lemma_totality(s: Seq<u8>)
    requires
        s.len() <= usize::MAX,
    ensures
        spans_text(s, spec_tokens(s)) == s,
{
    lemma_tokens_cover(s, 0);
    assert(s.subrange(0, s.len() as int) =~= s);
}

/// The saturating bump of a bracket count.
pub open spec fn count_up(n: usize) -> usize {
    if n < usize::MAX {
        (n + 1) as usize
    } else {
        n
    }
}

/// The saturating drop of a bracket count.
pub open spec fn count_down(n: usize) -> usize {
    if n > 0 {
        (n - 1) as usize
    } else {
        n
    }
}

/// The bracket kind a macro token tree is keyed to, from its opening byte.
pub open spec fn bracket_kind_of(b: u8) -> BracketKind {
    if b == 40 {
        BracketKind::Paren
    } else if b == 91 {
        BracketKind::Square
    } else {
        BracketKind::Brace
    }
}

/// How one punctuation byte changes the context stack: inside a macro
/// token tree each bracket kind is counted independently, and the tree's
/// frame is popped exactly when a closing bracket returns all three
/// counts to zero.
pub open spec fn bracket_step(fs: Seq<ContextFrame>, b: u8) -> Seq<ContextFrame> {
    if fs.len() == 0 || !(b == 40 || b == 91 || b == 123 || b == 41 || b == 93 || b == 125) {
        fs
    } else {
        match fs.last() {
            ContextFrame::MacroTokenTree { bracket_kind, parens, squares, braces } => {
                let p2 = if b == 40 {
                    count_up(parens)
                } else if b == 41 {
                    count_down(parens)
                } else {
                    parens
                };
                let s2 = if b == 91 {
                    count_up(squares)
                } else if b == 93 {
                    count_down(squares)
                } else {
                    squares
                };
                let b2 = if b == 123 {
                    count_up(braces)
                } else if b == 125 {
                    count_down(braces)
                } else {
                    braces
                };
                if (b == 41 || b == 93 || b == 125) && p2 == 0 && s2 == 0 && b2 == 0 {
                    fs.drop_last()
                } else {
                    fs.update(
                        fs.len() - 1,
                        ContextFrame::MacroTokenTree {
                            bracket_kind,
                            parens: p2,
                            squares: s2,
                            braces: b2,
                        },
                    )
                }
            },
            _ => fs,
        }
    }
}

/// How one emitted token changes the context stack: a macro invocation
/// pushes a fresh token-tree frame keyed to the bracket that follows it,
/// and punctuation steps the bracket counts.
pub open spec fn frames_step(fs: Seq<ContextFrame>, s: Seq<u8>, t: Token) -> Seq<ContextFrame> {
    if t.category == TokenCategory::MacroInvocation {
        fs.push(
            ContextFrame::MacroTokenTree {
                bracket_kind: bracket_kind_of(s[t.end as int]),
                parens: 0,
                squares: 0,
                braces: 0,
            },
        )
    } else if t.category == TokenCategory::Punctuation {
        bracket_step(fs, s[t.start as int])
    } else {
        fs
    }
}

/// The context stack after a whole token sequence, starting from `fs`.
pub open spec fn frames_fold(fs: Seq<ContextFrame>, s: Seq<u8>, toks: Seq<Token>) -> Seq<
    ContextFrame,
>
    decreases toks.len(),
{
    if toks.len() == 0 {
        fs
    } else {
        frames_fold(frames_step(fs, s, toks[0]), s, toks.skip(1))
    }
}

/// Folding one more token steps the fold once.
pub proof fn lemma_frames_fold_push(fs: Seq<ContextFrame>, s: Seq<u8>, toks: Seq<Token>, t: Token)
    ensures
        frames_fold(fs, s, toks.push(t)) == frames_step(frames_fold(fs, s, toks), s, t),
    decreases toks.len(),
{
    if toks.len() == 0 {
        assert(toks.push(t)[0] == t);
        assert(toks.push(t).skip(1) =~= Seq::<Token>::empty());
        assert(frames_fold(fs, s, toks.push(t)) == frames_fold(
            frames_step(fs, s, t),
            s,
            Seq::<Token>::empty(),
        ));
        assert(frames_fold(frames_step(fs, s, t), s, Seq::<Token>::empty()) == frames_step(
            fs,
            s,
            t,
        ));
        assert(frames_fold(fs, s, toks) == fs);
    } else {
        assert(toks.push(t)[0] == toks[0]);
        assert(toks.push(t).skip(1) =~= toks.skip(1).push(t));
        lemma_frames_fold_push(frames_step(fs, s, toks[0]), s, toks.skip(1), t);
        assert(frames_fold(fs, s, toks.push(t)) == frames_fold(
            frames_step(fs, s, toks[0]),
            s,
            toks.skip(1).push(t),
        ));
        assert(frames_fold(fs, s, toks) == frames_fold(
            frames_step(fs, s, toks[0]),
            s,
            toks.skip(1),
        ));
    }
}

/// Law (idempotence of re-tokenization): tokenizing the document that the
/// emitted spans reconstruct yields the identical token sequence.
pub proof fn lemma_retokenize_idempotent(s: Seq<u8>)
    requires
        s.len() <= usize::MAX,
    ensures
        spec_tokens(spans_text(s, spec_tokens(s))) == spec_tokens(s),
{
    lemma_totality(s);
}

/// Applies one punctuation byte to the stack, per `bracket_step`.
fn bracket_step_exec(stack: &mut ContextStack, b: u8)
    ensures
        final(stack).view() == bracket_step(old(stack).view(), b),
{
    if !(b == 40 || b == 91 || b == 123 || b == 41 || b == 93 || b == 125) {
        return ;
    }
    match stack.top() {
        Some(ContextFrame::MacroTokenTree { bracket_kind, parens, squares, braces }) => {
            let p2: usize = if b == 40 {
                if parens < usize::MAX {
                    parens + 1
                } else {
                    parens
                }
            } else if b == 41 {
                if parens > 0 {
                    parens - 1
                } else {
                    0
                }
            } else {
                parens
            };
            let s2: usize = if b == 91 {
                if squares < usize::MAX {
                    squares + 1
                } else {
                    squares
                }
            } else if b == 93 {
                if squares > 0 {
                    squares - 1
                } else {
                    0
                }
            } else {
                squares
            };
            let b2: usize = if b == 123 {
                if braces < usize::MAX {
                    braces + 1
                } else {
                    braces
                }
            } else if b == 125 {
                if braces > 0 {
                    braces - 1
                } else {
                    0
                }
            } else {
                braces
            };
            if (b == 41 || b == 93 || b == 125) && p2 == 0 && s2 == 0 && b2 == 0 {
                let _ = stack.pop();
            } else {
                stack.set_top(
                    ContextFrame::MacroTokenTree {
                        bracket_kind,
                        parens: p2,
                        squares: s2,
                        braces: b2,
                    },
                );
            }
        },
        _ => {},
    }
}

/// Scans a lexeme that opens like an identifier: macro invocation,
/// keyword or identifier, per `ident_span`.
fn scan_ident_like(s: &[u8], i: usize) -> (r: (usize, TokenCategory))
    requires
        i < s@.len(),
        is_ident_start(s@[i as int]),
    ensures
        r.0 as int == ident_span(s@, i as int).0,
        r.1 == ident_span(s@, i as int).1,
        i < r.0 <= s@.len(),
{
    proof {
        assert(class_spec(ByteClass::IdentCont)(s@[i as int]));
        crate::scan::lemma_run_end(s@, i as int + 1, class_spec(ByteClass::IdentCont));
    }
    let e = scan_run(s, i, ByteClass::IdentCont);
    if e < s.len() && s[e] == 33 && e + 1 < s.len() && open_bracket_exec(s[e + 1]) {
        (e + 1, TokenCategory::MacroInvocation)
    } else if is_keyword(s, i, e) {
        (e, TokenCategory::Keyword)
    } else {
        (e, TokenCategory::Identifier)
    }
}

/// A forward-only cursor over one input buffer: the scanner position and
/// the context stack of the tokenization pass.
pub struct Tokenizer<'a> {
    src: &'a [u8],
    pos: usize,
    stack: ContextStack,
}

impl<'a> Tokenizer<'a> {
    /// The input buffer being tokenized.
    pub closed spec fn input(&self) -> Seq<u8> {
        self.src@
    }

    /// The current scanning position.
    pub closed spec fn position(&self) -> int {
        self.pos as int
    }

    /// The open context frames, bottom first.
    pub closed spec fn frames(&self) -> Seq<ContextFrame> {
        self.stack.view()
    }

    /// The position never leaves the input.
    pub open spec fn wf(&self) -> bool {
        0 <= self.position() <= self.input().len()
    }

    /// A fresh pass over `src`: position zero, no open construct.
    pub fn new(src: &'a [u8]) -> (r: Tokenizer<'a>)
        ensures
            r.wf(),
            r.input() == src@,
            r.position() == 0,
            r.frames() == Seq::<ContextFrame>::empty(),
    {
        Tokenizer { src, pos: 0, stack: ContextStack::new() }
    }

    /// The number of constructs still open.
    pub fn depth(&self) -> (r: usize)
        ensures
            r == self.frames().len(),
    {
        self.stack.depth()
    }

    /// The open frames at this point of the pass, bottom first.
    pub fn open_frames(&self) -> (r: Vec<ContextFrame>)
        ensures
            r@ == self.frames(),
    {
        let mut out: Vec<ContextFrame> = Vec::new();
        let mut k: usize = 0;
        let n = self.stack.depth();
        while k < n
            invariant
                0 <= k <= n,
                n == self.frames().len(),
                out@ =~= self.frames().take(k as int),
            decreases n - k,
        {
            match self.stack.frame_at(k) {
                Some(f) => {
                    out.push(f);
                },
                None => {
                    proof {
                        assert(false);
                    }
                },
            }
            k = k + 1;
        }
        proof {
            assert(self.frames().take(n as int) =~= self.frames());
        }
        out
    }

    /// Emits the next token, or `None` at end of input. The token is
    /// exactly the one the specification `token_of` gives at the current
    /// position; the position moves to its end and the context stack
    /// steps per `frames_step`.
    pub fn next_token(&mut self) -> (r: Option<Token>)
        requires
            old(self).wf(),
        ensures
            final(self).wf(),
            final(self).input() == old(self).input(),
            old(self).position() < old(self).input().len() ==> ({
                let t = token_of(old(self).input(), old(self).position());
                r == Some(t) && final(self).position() == t.end && final(self).frames()
                    == frames_step(old(self).frames(), old(self).input(), t)
            }),
            old(self).position() == old(self).input().len() ==> r is None && final(self).position()
                == old(self).position() && final(self).frames() == old(self).frames(),
    {
        let s = self.src;
        let i = self.pos;
        if i >= s.len() {
            return None;
        }
        proof {
            lemma_next_span(s@, i as int);
        }
        let ghost ns = next_span(s@, i as int);
        let b = s[i];
        let end: usize;
        let cat: TokenCategory;
        let unt: bool;
        if byte_in_class(b, ByteClass::Ws) {
            end = scan_run(s, i, ByteClass::Ws);
            cat = TokenCategory::Whitespace;
            unt = false;
        } else if b == 47 && i + 1 < s.len() && s[i + 1] == 47 {
            end = scan_run(s, i + 2, ByteClass::LineCont);
            cat = TokenCategory::Comment(CommentKind::Line);
            unt = false;
        } else if b == 47 && i + 1 < s.len() && s[i + 1] == 42 {
            let (e, ok) = scan_block_body(s, i + 2, 1);
            end = e;
            cat = TokenCategory::Comment(CommentKind::Block);
            unt = !ok;
        } else if b == 114 {
            let h = scan_run(s, i + 1, ByteClass::Hash);
            if h < s.len() && s[h] == 34 {
                let (e, ok) = scan_raw_body(s, h + 1, h - (i + 1));
                end = e;
                cat = TokenCategory::RawStringLiteral;
                unt = !ok;
            } else {
                let (e, c) = scan_ident_like(s, i);
                end = e;
                cat = c;
                unt = false;
            }
        } else if b == 98 && i + 1 < s.len() && s[i + 1] == 34 {
            let (e, ok) = scan_str_body(s, i + 2, 34);
            end = e;
            cat = TokenCategory::ByteStringLiteral;
            unt = !ok;
        } else if b == 98 && i + 1 < s.len() && s[i + 1] == 39 {
            let (e, ok) = scan_str_body(s, i + 2, 39);
            end = e;
            cat = TokenCategory::CharLiteral;
            unt = !ok;
        } else if ident_start_exec(b) {
            let (e, c) = scan_ident_like(s, i);
            end = e;
            cat = c;
            unt = false;
        } else if digit_exec(b) {
            end = scan_number(s, i);
            cat = TokenCategory::NumericLiteral;
            unt = false;
        } else if b == 34 {
            let (e, ok) = scan_str_body(s, i + 1, 34);
            end = e;
            cat = TokenCategory::StringLiteral;
            unt = !ok;
        } else if b == 39 {
            if i + 1 < s.len() && ident_start_exec(s[i + 1]) && !(s.len() - i > 2 && s[i + 2]
                == 39) {
                end = scan_run(s, i + 1, ByteClass::IdentCont);
                cat = TokenCategory::Lifetime;
                unt = false;
            } else {
                let (e, ok) = scan_str_body(s, i + 1, 39);
                end = e;
                cat = TokenCategory::CharLiteral;
                unt = !ok;
            }
        } else if b == 35 {
            if i + 1 < s.len() && s[i + 1] == 91 {
                let (e, ok) = scan_attr_body(s, i + 2, 1);
                end = e;
                cat = TokenCategory::Attribute;
                unt = !ok;
            } else if s.len() - i > 2 && s[i + 1] == 33 && s[i + 2] == 91 {
                let (e, ok) = scan_attr_body(s, i + 3, 1);
                end = e;
                cat = TokenCategory::Attribute;
                unt = !ok;
            } else {
                end = i + 1;
                cat = TokenCategory::Unknown;
                unt = false;
            }
        } else if op_byte_exec(b) {
            end = scan_operator(s, i);
            cat = TokenCategory::Operator;
            unt = false;
        } else if punct_byte_exec(b) {
            end = i + 1;
            cat = TokenCategory::Punctuation;
            unt = false;
        } else {
            proof {
                assert(class_spec(ByteClass::UnknownCont)(b));
            }
            end = scan_run(s, i, ByteClass::UnknownCont);
            cat = TokenCategory::Unknown;
            unt = false;
        }
        proof {
            assert(end as int == ns.0 && cat == ns.1 && unt == ns.2);
        }
        let tok = Token { category: cat, start: i, end, unterminated: unt };
        proof {
            assert(tok == token_of(s@, i as int));
        }
        self.pos = end;
        if matches!(cat, TokenCategory::MacroInvocation) {
            proof {
                assert(tok.end < s@.len() && is_open_bracket(s@[tok.end as int]));
            }
            let kb = s[end];
            let kind = if kb == 40 {
                BracketKind::Paren
            } else if kb == 91 {
                BracketKind::Square
            } else {
                BracketKind::Brace
            };
            self.stack.push(
                ContextFrame::MacroTokenTree { bracket_kind: kind, parens: 0, squares: 0, braces: 0 },
            );
        } else if matches!(cat, TokenCategory::Punctuation) {
            bracket_step_exec(&mut self.stack, b);
        }
        Some(tok)
    }
}

/// Tokenizes a whole input: the emitted tokens are exactly `spec_tokens`,
/// their spans reconstruct the input exactly, and the returned frames are
/// the constructs still open at end of input (empty for a well-formed
/// document).
pub fn tokenize(s: &[u8]) -> (r: (Vec<Token>, Vec<ContextFrame>))
    ensures
        r.0@ == spec_tokens(s@),
        r.1@ == frames_fold(Seq::<ContextFrame>::empty(), s@, spec_tokens(s@)),
        spans_text(s@, r.0@) == s@,
{
    let n: usize = s.len();
    let mut tk = Tokenizer::new(s);
    let mut out: Vec<Token> = Vec::new();
    proof {
        assert(out@ + spec_tokens_from(s@, 0) =~= spec_tokens(s@));
    }
    loop
        invariant
            tk.wf(),
            tk.input() == s@,
            s@.len() == n,
            out@ + spec_tokens_from(s@, tk.position()) == spec_tokens(s@),
            tk.frames() == frames_fold(Seq::<ContextFrame>::empty(), s@, out@),
        ensures
            tk.input() == s@,
            tk.position() == s@.len(),
            out@ + spec_tokens_from(s@, tk.position()) == spec_tokens(s@),
            tk.frames() == frames_fold(Seq::<ContextFrame>::empty(), s@, out@),
        decreases s@.len() - tk.position(),
    {
        let ghost p = tk.position();
        let t = match tk.next_token() {
            Some(t) => t,
            None => { break ; },
        };
        proof {
            lemma_next_span(s@, p);
            assert(t.end as int == span_end(s@, p));
            assert(spec_tokens_from(s@, p) == seq![t] + spec_tokens_from(s@, t.end as int));
            assert(out@.push(t) + spec_tokens_from(s@, t.end as int) =~= out@ + spec_tokens_from(
                s@,
                p,
            ));
            lemma_frames_fold_push(Seq::<ContextFrame>::empty(), s@, out@, t);
        }
        out.push(t);
    }
    proof {
        assert(spec_tokens_from(s@, tk.position()) =~= Seq::<Token>::empty());
        assert(out@ + Seq::<Token>::empty() =~= out@);
        assert(s@.len() <= usize::MAX);
        lemma_totality(s@);
    }
    let frames = tk.open_frames();
    (out, frames)
}

/// Appending one span appends its text.
pub proof fn lemma_spans_text_push(s: Seq<u8>, toks: Seq<Token>, t: Token)
    ensures
        spans_text(s, toks.push(t)) == spans_text(s, toks) + s.subrange(
            t.start as int,
            t.end as int,
        ),
    decreases toks.len(),
{
    let sub = s.subrange(t.start as int, t.end as int);
    if toks.len() == 0 {
        assert(toks.push(t)[0] == t);
        assert(toks.push(t).skip(1) =~= Seq::<Token>::empty());
        assert(spans_text(s, toks.push(t)) == sub + spans_text(s, toks.push(t).skip(1)));
        assert(sub + Seq::<u8>::empty() =~= sub);
        assert(Seq::<u8>::empty() + sub =~= sub);
    } else {
        assert(toks.push(t)[0] == toks[0]);
        assert(toks.push(t).skip(1) =~= toks.skip(1).push(t));
        lemma_spans_text_push(s, toks.skip(1), t);
        let head = s.subrange(toks[0].start as int, toks[0].end as int);
        assert(spans_text(s, toks.push(t)) == head + spans_text(s, toks.skip(1).push(t)));
        assert(spans_text(s, toks) == head + spans_text(s, toks.skip(1)));
        assert(head + (spans_text(s, toks.skip(1)) + sub) =~= (head + spans_text(s, toks.skip(1)))
            + sub);
    }
}

/// Concatenates the texts of the given spans back into one buffer. On the
/// output of `tokenize` this reconstructs the input exactly.
pub fn reconstruct(s: &[u8], toks: &Vec<Token>) -> (r: Vec<u8>)
    requires
        forall|k: int|
            0 <= k < toks@.len() ==> (#[trigger] toks@[k]).start <= toks@[k].end <= s@.len(),
    ensures
        r@ == spans_text(s@, toks@),
{
    let mut out: Vec<u8> = Vec::new();
    let mut k: usize = 0;
    proof {
        assert(out@ =~= spans_text(s@, toks@.take(0)));
    }
    while k < toks.len()
        invariant
            0 <= k <= toks@.len(),
            forall|m: int|
                0 <= m < toks@.len() ==> (#[trigger] toks@[m]).start <= toks@[m].end <= s@.len(),
            out@ == spans_text(s@, toks@.take(k as int)),
        decreases toks@.len() - k,
    {
        let t = toks[k];
        let mut j: usize = t.start;
        proof {
            assert(s@.subrange(t.start as int, t.start as int) =~= Seq::<u8>::empty());
            assert(out@ =~= spans_text(s@, toks@.take(k as int)) + s@.subrange(
                t.start as int,
                t.start as int,
            ));
        }
        while j < t.end
            invariant
                toks@[k as int] == t,
                t.start <= j <= t.end <= s@.len(),
                out@ == spans_text(s@, toks@.take(k as int)) + s@.subrange(
                    t.start as int,
                    j as int,
                ),
            decreases t.end - j,
        {
            out.push(s[j]);
            proof {
                assert(s@.subrange(t.start as int, j as int + 1) =~= s@.subrange(
                    t.start as int,
                    j as int,
                ).push(s@[j as int]));
            }
            j = j + 1;
        }
        proof {
            lemma_spans_text_push(s@, toks@.take(k as int), t);
            assert(toks@.take(k as int + 1) =~= toks@.take(k as int).push(t));
        }
        k = k + 1;
    }
    proof {
        assert(toks@.take(toks@.len() as int) =~= toks@);
    }
    out
}

} // verus!
