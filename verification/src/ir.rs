//! The input of the printer: tokens and comment counts.
use vstd::prelude::*;
use crate::comments::CommentAttachment;
use crate::cst::Cst;
use crate::lexer::{Token, tokens_tile};

verus! {

#[derive(Debug, Clone)]
pub struct FormatIr {
    pub source: Vec<char>,
    pub tokens: Vec<Token>,
    pub line_comment_count: usize,
    pub block_comment_count: usize,
}

impl FormatIr {
    /// The tokens tile the source.
    pub open spec fn wf(&self) -> bool {
        &&& tokens_tile(self.tokens@, 0, self.source@.len() as int)
        &&& self.source@.len() <= usize::MAX
    }
}

/// Gathers the printer's input from the syntax tree and the comment counts.
pub fn build(cst: &Cst, comments: CommentAttachment) -> (ir: FormatIr)
    ensures
        ir.source@ == cst.source@,
        ir.tokens@ == cst.tokens@,
        ir.line_comment_count == comments.line_comment_count,
        ir.block_comment_count == comments.block_comment_count,
{
    let mut tokens: Vec<Token> = Vec::new();
    let mut i: usize = 0;
    while i < cst.tokens.len()
        invariant
            i <= cst.tokens@.len(),
            tokens@ == cst.tokens@.subrange(0, i as int),
        decreases cst.tokens@.len() - i,
    {
        tokens.push(cst.tokens[i]);
        i = i + 1;
        assert(tokens@ =~= cst.tokens@.subrange(0, i as int));
    }
    assert(tokens@ =~= cst.tokens@);
    FormatIr {
        source: crate::text::copy_chars(&cst.source),
        tokens,
        line_comment_count: comments.line_comment_count,
        block_comment_count: comments.block_comment_count,
    }
}

} // verus!
