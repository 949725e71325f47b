//! The concrete syntax tree handed from the parser to later stages: the source
//! text with its full token list.
use vstd::prelude::*;
use crate::lexer::{LexedSource, Token, tokens_tile};

verus! {

#[derive(Debug, Clone)]
pub struct Cst {
    pub source: Vec<char>,
    pub tokens: Vec<Token>,
}

impl Cst {
    /// The tokens tile the source.
    pub open spec fn wf(&self) -> bool {
        &&& tokens_tile(self.tokens@, 0, self.source@.len() as int)
        &&& self.source@.len() <= usize::MAX
    }

    /// Takes over the source and tokens of a lexed file.
    pub fn from_lexed(lexed: &LexedSource) -> (cst: Cst)
        ensures
            cst.source@ == lexed.source@,
            cst.tokens@ == lexed.tokens@,
    {
        let mut tokens: Vec<Token> = Vec::new();
        let mut i: usize = 0;
        while i < lexed.tokens.len()
            invariant
                i <= lexed.tokens@.len(),
                tokens@ == lexed.tokens@.subrange(0, i as int),
            decreases lexed.tokens@.len() - i,
        {
            tokens.push(lexed.tokens[i]);
            i = i + 1;
            assert(tokens@ =~= lexed.tokens@.subrange(0, i as int));
        }
        assert(tokens@ =~= lexed.tokens@);
        Cst { source: crate::text::copy_chars(&lexed.source), tokens }
    }
}

} // verus!
