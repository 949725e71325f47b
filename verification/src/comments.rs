//! Counts the comments of a file.
use vstd::prelude::*;
use crate::cst::Cst;
use crate::lexer::{LexedSource, Token, TokenKind};

verus! {

#[derive(Debug, Clone, Copy, Default, PartialEq, Eq, Structural)]
pub struct CommentAttachment {
    pub line_comment_count: usize,
    pub block_comment_count: usize,
}

/// The number of tokens of the given kind.
pub open spec fn count_kind(toks: Seq<Token>, kind: TokenKind) -> nat
    decreases toks.len(),
{
    if toks.len() == 0 {
        0
    } else {
        count_kind(toks.drop_last(), kind) + if toks.last().kind == kind {
            1nat
        } else {
            0nat
        }
    }
}

proof fn lemma_count_kind_bound(toks: Seq<Token>, kind: TokenKind)
    ensures
        count_kind(toks, kind) <= toks.len(),
    decreases toks.len(),
{
    if toks.len() > 0 {
        lemma_count_kind_bound(toks.drop_last(), kind);
    }
}

/// Counts the line comments and the block comments among the tokens.
pub fn attach(cst: &Cst, lexed: &LexedSource) -> (r: CommentAttachment)
    ensures
        r.line_comment_count == count_kind(lexed.tokens@, TokenKind::LineComment),
        r.block_comment_count == count_kind(lexed.tokens@, TokenKind::BlockComment),
{
    let _ = cst.tokens.len();
    let mut line_comment_count: usize = 0;
    let mut block_comment_count: usize = 0;
    let mut i: usize = 0;
    while i < lexed.tokens.len()
        invariant
            i <= lexed.tokens@.len(),
            line_comment_count == count_kind(lexed.tokens@.subrange(0, i as int), TokenKind::LineComment),
            block_comment_count == count_kind(lexed.tokens@.subrange(0, i as int), TokenKind::BlockComment),
        decreases lexed.tokens@.len() - i,
    {
        let ghost pre = lexed.tokens@.subrange(0, i as int);
        let ghost next = lexed.tokens@.subrange(0, i + 1);
        assert(next.drop_last() =~= pre);
        proof {
            lemma_count_kind_bound(pre, TokenKind::LineComment);
            lemma_count_kind_bound(pre, TokenKind::BlockComment);
        }
        match lexed.tokens[i].kind {
            TokenKind::LineComment => line_comment_count = line_comment_count + 1,
            TokenKind::BlockComment => block_comment_count = block_comment_count + 1,
            _ => {},
        }
        i = i + 1;
    }
    assert(lexed.tokens@.subrange(0, i as int) =~= lexed.tokens@);
    CommentAttachment { line_comment_count, block_comment_count }
}

} // verus!
