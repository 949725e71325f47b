//! Documents for the line-width-aware layout: text, line breaks, and groups
//! that are laid out flat when they fit.
use vstd::prelude::*;

verus! {

/// A line break that may become a space (`Soft`) or that always breaks
/// (`Hard`).
#[derive(Debug, Clone, Copy, PartialEq, Eq, Structural)]
pub enum LineMode {
    Soft,
    Hard,
}

/// A document.
#[derive(Debug)]
pub enum Doc {
    Nil,
    Text(String),
    Line(LineMode),
    Concat(Vec<Doc>),
    Group(Box<Doc>),
    Indent(usize, Box<Doc>),
}

/// The number of nodes of a document.
pub open spec fn doc_size(d: Doc) -> nat
    decreases d, 0nat,
{
    match d {
        Doc::Concat(parts) => 1 + docs_size(parts@),
        Doc::Group(inner) => 1 + doc_size(*inner),
        Doc::Indent(_, inner) => 1 + doc_size(*inner),
        _ => 1,
    }
}

/// The number of nodes of a sequence of documents.
pub open spec fn docs_size(s: Seq<Doc>) -> nat
    decreases s, s.len(),
{
    if s.len() == 0 {
        0
    } else {
        docs_size(s.subrange(0, s.len() - 1)) + doc_size(s[s.len() - 1])
    }
}

/// The document holds no soft line: its layout does not depend on the
/// width.
pub open spec fn is_hard(d: Doc) -> bool
    decreases d, 0nat,
{
    match d {
        Doc::Line(mode) => mode == LineMode::Hard,
        Doc::Concat(parts) => all_hard(parts@),
        Doc::Group(inner) => is_hard(*inner),
        Doc::Indent(_, inner) => is_hard(*inner),
        _ => true,
    }
}

/// No document of the sequence holds a soft line.
pub open spec fn all_hard(s: Seq<Doc>) -> bool
    decreases s, s.len(),
{
    if s.len() == 0 {
        true
    } else {
        all_hard(s.subrange(0, s.len() - 1)) && is_hard(s[s.len() - 1])
    }
}

/// The deepest extra indentation of a document: the largest sum of `Indent`
/// amounts along a path into it.
pub open spec fn indent_depth(d: Doc) -> nat
    decreases d, 0nat,
{
    match d {
        Doc::Concat(parts) => docs_indent_depth(parts@),
        Doc::Group(inner) => indent_depth(*inner),
        Doc::Indent(extra, inner) => extra as nat + indent_depth(*inner),
        _ => 0,
    }
}

/// The deepest extra indentation of a sequence of documents.
pub open spec fn docs_indent_depth(s: Seq<Doc>) -> nat
    decreases s, s.len(),
{
    if s.len() == 0 {
        0
    } else {
        let a = docs_indent_depth(s.subrange(0, s.len() - 1));
        let b = indent_depth(s[s.len() - 1]);
        if a >= b {
            a
        } else {
            b
        }
    }
}

/// Each document of a sequence is at most as deep as the sequence.
pub proof fn lemma_docs_indent_depth(s: Seq<Doc>)
    ensures
        forall|k: int| 0 <= k < s.len() ==> indent_depth(#[trigger] s[k]) <= docs_indent_depth(s),
    decreases s.len(),
{
    if s.len() > 0 {
        let front = s.subrange(0, s.len() - 1);
        lemma_docs_indent_depth(front);
        assert forall|k: int| 0 <= k < s.len() implies indent_depth(#[trigger] s[k])
            <= docs_indent_depth(s) by {
            if k < s.len() - 1 {
                assert(s[k] == front[k]);
            }
        }
    }
}

impl Doc {
    /// A text.
    pub fn text(text: &str) -> (d: Doc)
        ensures
            d matches Doc::Text(t) && t@ == text@,
    {
        Doc::Text(text.to_owned())
    }

    /// A line break that becomes a space in a group laid out flat.
    pub fn soft_line() -> (d: Doc)
        ensures
            d == Doc::Line(LineMode::Soft),
    {
        Doc::Line(LineMode::Soft)
    }

    /// A line break.
    pub fn hard_line() -> (d: Doc)
        ensures
            d == Doc::Line(LineMode::Hard),
    {
        Doc::Line(LineMode::Hard)
    }

    /// The documents one after the other: `Nil` for none, the document
    /// itself for one.
    pub fn concat(docs: Vec<Doc>) -> (d: Doc)
        ensures
            docs@.len() == 0 ==> d == Doc::Nil,
            docs@.len() == 1 ==> d == docs@[0],
            docs@.len() > 1 ==> d == Doc::Concat(docs),
    {
        if docs.len() == 0 {
            Doc::Nil
        } else if docs.len() == 1 {
            let mut docs = docs;
            let ghost first = docs@[0];
            match docs.pop() {
                Some(d) => d,
                None => Doc::Nil,
            }
        } else {
            Doc::Concat(docs)
        }
    }

    /// A group: laid out flat when it fits the line.
    pub fn group(doc: Doc) -> (d: Doc)
        ensures
            d == Doc::Group(Box::new(doc)),
    {
        Doc::Group(Box::new(doc))
    }

    /// The document with its line breaks indented by `spaces` more.
    pub fn indent(spaces: usize, doc: Doc) -> (d: Doc)
        ensures
            d == Doc::Indent(spaces, Box::new(doc)),
    {
        Doc::Indent(spaces, Box::new(doc))
    }
}

} // verus!
