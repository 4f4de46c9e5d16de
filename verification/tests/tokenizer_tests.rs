use lexspan::context::ContextFrame;
use lexspan::token::{CommentKind, Token, TokenCategory};
use lexspan::tokenizer::{reconstruct, tokenize, Tokenizer};

fn all_tokens(src: &[u8]) -> Vec<Token> {
    let (toks, _) = tokenize(src);
    toks
}

fn significant(src: &[u8]) -> Vec<Token> {
    all_tokens(src)
        .into_iter()
        .filter(|t| t.category != TokenCategory::Whitespace)
        .collect()
}

fn check_tiling(src: &[u8]) {
    let toks = all_tokens(src);
    if src.is_empty() {
        assert!(toks.is_empty());
        return;
    }
    assert_eq!(toks[0].start, 0);
    for w in toks.windows(2) {
        assert_eq!(w[0].end, w[1].start);
    }
    for t in &toks {
        assert!(t.start < t.end);
    }
    assert_eq!(toks.last().unwrap().end, src.len());
}

const SAMPLE: &[u8] = b"pub fn main() { let s = \"hi\\\"x\"; /* a /* b */ c */ let n = 0xFF_u8; log!(a, [b, {c}], d) // tail\n let lt: &'static str = r#\"raw\"#; }";

#[test]
fn totality_reconstructs_input() {
    for src in [
        &b""[..],
        &b"   "[..],
        &b"fn main() {}"[..],
        SAMPLE,
        &b"\"unterminated"[..],
        &b"/* open"[..],
        &b"r##\"a\"#\"##"[..],
        &b"\x00\x01\xff weird"[..],
    ] {
        let (toks, _) = tokenize(src);
        let back = reconstruct(src, &toks);
        assert_eq!(back, src.to_vec());
        check_tiling(src);
    }
}

#[test]
fn retokenization_is_idempotent() {
    for src in [
        &b"let x = 1_000; 'a 'b' r#\"x\"# #[cfg(test)]"[..],
        SAMPLE,
        &b"\"unterminated and /* open"[..],
    ] {
        let (toks, _) = tokenize(src);
        let back = reconstruct(src, &toks);
        let (toks2, _) = tokenize(&back);
        assert_eq!(toks, toks2);
    }
}

#[test]
fn raw_string_delimiters_match() {
    // The inner quote-hash-quote does not close a double-hash raw string.
    let src = b"r##\"a\"#\"##";
    let toks = all_tokens(src);
    assert_eq!(toks.len(), 1);
    assert_eq!(toks[0].category, TokenCategory::RawStringLiteral);
    assert_eq!((toks[0].start, toks[0].end), (0, src.len()));
    assert!(!toks[0].unterminated);

    let src2 = b"r#\"a\"# x";
    let toks2 = all_tokens(src2);
    assert_eq!(toks2[0].category, TokenCategory::RawStringLiteral);
    assert_eq!((toks2[0].start, toks2[0].end), (0, 6));

    let src3 = b"r#\"unterminated";
    let toks3 = all_tokens(src3);
    assert_eq!(toks3.len(), 1);
    assert_eq!(toks3[0].category, TokenCategory::RawStringLiteral);
    assert!(toks3[0].unterminated);
    assert_eq!(toks3[0].end, src3.len());
}

#[test]
fn nested_block_comment_is_one_token() {
    let src = b"/* a /* b */ c */";
    let toks = all_tokens(src);
    assert_eq!(toks.len(), 1);
    assert_eq!(toks[0].category, TokenCategory::Comment(CommentKind::Block));
    assert_eq!((toks[0].start, toks[0].end), (0, src.len()));
    assert!(!toks[0].unterminated);

    let open = b"/* a /* b */ c";
    let t = all_tokens(open);
    assert_eq!(t.len(), 1);
    assert!(t[0].unterminated);
}

#[test]
fn numeric_literal_shapes() {
    for src in [
        &b"1_000_000"[..],
        &b"0xDEAD_BEEF"[..],
        &b"0o755"[..],
        &b"0b1010_1010"[..],
        &b"3.14159_f64"[..],
    ] {
        let toks = all_tokens(src);
        assert_eq!(toks.len(), 1, "{:?}", src);
        assert_eq!(toks[0].category, TokenCategory::NumericLiteral);
        assert_eq!((toks[0].start, toks[0].end), (0, src.len()));
    }
}

#[test]
fn macro_invocation_brackets_balance_independently() {
    let src = b"log!(a, [b, {c}], d)";
    let toks = significant(src);
    assert_eq!(toks[0].category, TokenCategory::MacroInvocation);
    assert_eq!((toks[0].start, toks[0].end), (0, 4)); // the name and the bang

    // The token-tree frame opens at the macro name and closes only when
    // all three bracket kinds are balanced back to zero.
    let mut tk = Tokenizer::new(src);
    let mut depth_after: Vec<(usize, usize)> = Vec::new();
    while let Some(t) = tk.next_token() {
        depth_after.push((t.end, tk.depth()));
    }
    // Open from the macro token up to (but not including) the final `)`.
    for (end, depth) in &depth_after {
        if *end >= 4 && *end < src.len() {
            assert_eq!(*depth, 1, "at {}", end);
        }
    }
    assert_eq!(depth_after.last().unwrap().1, 0);

    let (_, frames) = tokenize(src);
    assert!(frames.is_empty());

    // A tree still open at end of input is reported as a frame.
    let (_, open_frames) = tokenize(b"log!(a, [b, {c}]");
    assert_eq!(open_frames.len(), 1);
    match open_frames[0] {
        ContextFrame::MacroTokenTree { parens, squares, braces, .. } => {
            assert_eq!((parens, squares, braces), (1, 0, 0));
        }
        _ => panic!("expected a macro token tree frame"),
    }
}

#[test]
fn lifetime_vs_char_literal() {
    let toks = significant(b"'a x");
    assert_eq!(toks[0].category, TokenCategory::Lifetime);
    assert_eq!((toks[0].start, toks[0].end), (0, 2));

    let toks2 = significant(b"'a'");
    assert_eq!(toks2[0].category, TokenCategory::CharLiteral);
    assert_eq!((toks2[0].start, toks2[0].end), (0, 3));

    let toks3 = significant(b"'static ");
    assert_eq!(toks3[0].category, TokenCategory::Lifetime);
    assert_eq!((toks3[0].start, toks3[0].end), (0, 7));

    let toks4 = significant(b"'\\n'");
    assert_eq!(toks4[0].category, TokenCategory::CharLiteral);
    assert_eq!((toks4[0].start, toks4[0].end), (0, 4));
}

#[test]
fn keywords_and_identifiers() {
    let toks = significant(b"pub fn selfish self Self loops loop");
    let cats: Vec<TokenCategory> = toks.iter().map(|t| t.category).collect();
    assert_eq!(
        cats,
        vec![
            TokenCategory::Keyword,
            TokenCategory::Keyword,
            TokenCategory::Identifier,
            TokenCategory::Keyword,
            TokenCategory::Keyword,
            TokenCategory::Identifier,
            TokenCategory::Keyword,
        ]
    );
}

#[test]
fn operators_longest_prefix() {
    let toks = significant(b"a..=b");
    assert_eq!(toks[1].category, TokenCategory::Operator);
    assert_eq!((toks[1].start, toks[1].end), (1, 4));

    let toks2 = significant(b"x<<=1");
    assert_eq!(toks2[1].category, TokenCategory::Operator);
    assert_eq!((toks2[1].start, toks2[1].end), (1, 4));

    let toks3 = significant(b"a->b::c=>d");
    let spans: Vec<(usize, usize, TokenCategory)> =
        toks3.iter().map(|t| (t.start, t.end, t.category)).collect();
    assert_eq!(spans[1], (1, 3, TokenCategory::Operator));
    assert_eq!(spans[3], (4, 6, TokenCategory::Operator));
    assert_eq!(spans[5], (7, 9, TokenCategory::Operator));
}

#[test]
fn strings_and_escapes() {
    let toks = significant(b"\"a\\\"b\" tail");
    assert_eq!(toks[0].category, TokenCategory::StringLiteral);
    assert_eq!((toks[0].start, toks[0].end), (0, 6));

    let unterm = significant(b"\"abc");
    assert_eq!(unterm[0].category, TokenCategory::StringLiteral);
    assert!(unterm[0].unterminated);

    let bytes = significant(b"b\"hello\" b'x'");
    assert_eq!(bytes[0].category, TokenCategory::ByteStringLiteral);
    assert_eq!((bytes[0].start, bytes[0].end), (0, 8));
    assert_eq!(bytes[1].category, TokenCategory::CharLiteral);
}

#[test]
fn comments_and_attributes() {
    let toks = significant(b"// line\nx");
    assert_eq!(toks[0].category, TokenCategory::Comment(CommentKind::Line));
    assert_eq!((toks[0].start, toks[0].end), (0, 7));

    let attr = significant(b"#[derive(Debug, Clone)] y");
    assert_eq!(attr[0].category, TokenCategory::Attribute);
    assert_eq!((attr[0].start, attr[0].end), (0, 23));

    let inner = significant(b"#![allow(dead_code)] z");
    assert_eq!(inner[0].category, TokenCategory::Attribute);
    assert_eq!((inner[0].start, inner[0].end), (0, 20));

    let nested = significant(b"#[cfg(any(a, b), feature = \"x[\")] w");
    assert_eq!(nested[0].category, TokenCategory::Attribute);

    let open = significant(b"#[derive(");
    assert!(open[0].unterminated);
    assert_eq!(open[0].category, TokenCategory::Attribute);
}

#[test]
fn unknown_bytes_resynchronize() {
    let toks = all_tokens(b"\x01\x02 ok");
    assert_eq!(toks[0].category, TokenCategory::Unknown);
    assert_eq!((toks[0].start, toks[0].end), (0, 2));
    assert_eq!(toks[1].category, TokenCategory::Whitespace);
    assert_eq!(toks[2].category, TokenCategory::Identifier);
}
