//! The context stack: the ordered record of open nested lexical constructs.
//!
//! The top frame determines the current lexing mode. Raw strings, block
//! comments and attributes open and close within a single lexeme, so their
//! frames live only while that lexeme is scanned; macro token trees span
//! many lexemes and their frames persist on the stack between them.

use vstd::prelude::*;

verus! {

/// The opening bracket kind that a macro token tree is keyed to.
#[derive(Clone, Copy, Debug, PartialEq, Eq, Structural)]
pub enum BracketKind {
    Paren,
    Square,
    Brace,
}

/// An open nested construct. Bracket depths inside a macro token tree are
/// counted independently per kind; the tree closes only when all three
/// return to zero.
#[derive(Clone, Copy, Debug, PartialEq, Eq, Structural)]
pub enum ContextFrame {
    RawString { delimiter_hash_count: usize },
    BlockComment { depth: usize },
    MacroTokenTree { bracket_kind: BracketKind, parens: usize, squares: usize, braces: usize },
    Attribute { is_multiline: bool },
}

/// The stack of open constructs. Popping an empty stack is not a fault:
/// it reports `None` and the caller degrades gracefully.
pub struct ContextStack {
    frames: Vec<ContextFrame>,
}

impl ContextStack {
    /// The ordered sequence of open frames, bottom first.
    pub closed spec fn view(&self) -> Seq<ContextFrame> {
        self.frames@
    }

    /// An empty stack: no construct is open.
    pub fn new() -> (r: ContextStack)
        ensures
            r.view() == Seq::<ContextFrame>::empty(),
    {
        ContextStack { frames: Vec::new() }
    }

    /// The number of open frames.
    pub fn depth(&self) -> (r: usize)
        ensures
            r == self.view().len(),
    {
        self.frames.len()
    }

    /// Whether no construct is open.
    pub fn is_empty(&self) -> (r: bool)
        ensures
            r == (self.view().len() == 0),
    {
        self.frames.len() == 0
    }

    /// Opens a construct: the frame goes on top.
    pub fn push(&mut self, f: ContextFrame)
        ensures
            final(self).view() == old(self).view().push(f),
    {
        self.frames.push(f);
    }

    /// Closes the top construct, or reports `None` when nothing is open.
    pub fn pop(&mut self) -> (r: Option<ContextFrame>)
        ensures
            old(self).view().len() == 0 ==> r is None && final(self).view() == old(self).view(),
            old(self).view().len() > 0 ==> r == Some(old(self).view().last()) && final(self).view()
                == old(self).view().drop_last(),
    {
        self.frames.pop()
    }

    /// The top frame, or `None` when nothing is open.
    pub fn top(&self) -> (r: Option<ContextFrame>)
        ensures
            self.view().len() == 0 ==> r is None,
            self.view().len() > 0 ==> r == Some(self.view().last()),
    {
        if self.frames.len() == 0 {
            None
        } else {
            Some(self.frames[self.frames.len() - 1])
        }
    }

    /// The frame at depth `k` from the bottom, or `None` when out of range.
    pub fn frame_at(&self, k: usize) -> (r: Option<ContextFrame>)
        ensures
            k < self.view().len() ==> r == Some(self.view()[k as int]),
            k >= self.view().len() ==> r is None,
    {
        if k < self.frames.len() {
            Some(self.frames[k])
        } else {
            None
        }
    }

    /// Replaces the top frame; nothing happens when the stack is empty.
    pub fn set_top(&mut self, f: ContextFrame)
        ensures
            old(self).view().len() == 0 ==> final(self).view() == old(self).view(),
            old(self).view().len() > 0 ==> final(self).view() == old(self).view().update(
                old(self).view().len() - 1,
                f,
            ),
    {
        let n = self.frames.len();
        if n > 0 {
            self.frames.set(n - 1, f);
        }
    }
}

} // verus!
