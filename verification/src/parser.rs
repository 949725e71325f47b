//! Builds the concrete syntax tree of a lexed file.
use vstd::prelude::*;
use crate::cst::Cst;
use crate::lexer::LexedSource;

verus! {

/// The syntax tree of a lexed file: its source and its tokens, unchanged.
pub fn parse(lexed: &LexedSource) -> (cst: Cst)
    ensures
        cst.source@ == lexed.source@,
        cst.tokens@ == lexed.tokens@,
{
    Cst::from_lexed(lexed)
}

} // verus!
