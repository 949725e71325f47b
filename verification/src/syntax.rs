//! A coarse outline of a Java file: its top-level package, import, type and
//! module items.
use vstd::prelude::*;
use crate::comments::{CommentAttachment, attach, count_kind};
use crate::cst::Cst;
use crate::lexer::{Token, TokenKind, lex, spec_lex, tokens_tile};
use crate::text::span_is;

verus! {

#[derive(Debug, Clone, Copy, PartialEq, Eq, Structural)]
pub enum TopLevelItemKind {
    Package,
    Import,
    TypeDeclaration,
    ModuleDeclaration,
    Other,
}

#[derive(Debug, Clone, Copy, PartialEq, Eq, Structural)]
pub struct TopLevelItem {
    pub kind: TopLevelItemKind,
    pub start_token: usize,
    pub end_token: usize,
}

#[derive(Debug, Clone)]
pub struct FileOutline {
    pub items: Vec<TopLevelItem>,
}

#[derive(Debug, Clone)]
pub struct ParsedFile {
    pub cst: Cst,
    pub comments: CommentAttachment,
    pub outline: FileOutline,
}

/// The text of a token.
pub open spec fn tok_text(src: Seq<char>, t: Token) -> Seq<char> {
    src.subrange(t.start as int, t.end as int)
}

/// Whitespace, newlines and comments.
pub open spec fn is_trivia(kind: TokenKind) -> bool {
    kind == TokenKind::Whitespace || kind == TokenKind::Newline || kind == TokenKind::LineComment
        || kind == TokenKind::BlockComment
}

/// The first token at or after `i` that is not trivia.
pub open spec fn next_start(toks: Seq<Token>, i: int) -> Option<int>
    decreases toks.len() - i,
{
    if i < 0 || i >= toks.len() {
        None
    } else if !is_trivia(toks[i].kind) {
        Some(i)
    } else {
        next_start(toks, i + 1)
    }
}

/// The kind of the item that starts at token `i`: decided by the first
/// `package`, `import`, type keyword, `module` or `;` at or after `i`.
pub open spec fn classify(src: Seq<char>, toks: Seq<Token>, i: int) -> TopLevelItemKind
    decreases toks.len() - i,
{
    if i < 0 || i >= toks.len() {
        TopLevelItemKind::Other
    } else {
        let t = toks[i];
        let text = tok_text(src, t);
        if t.kind == TokenKind::Word && text == "package"@ {
            TopLevelItemKind::Package
        } else if t.kind == TokenKind::Word && text == "import"@ {
            TopLevelItemKind::Import
        } else if t.kind == TokenKind::Word && (text == "class"@ || text == "interface"@ || text
            == "record"@ || text == "enum"@) {
            TopLevelItemKind::TypeDeclaration
        } else if t.kind == TokenKind::Word && text == "module"@ {
            TopLevelItemKind::ModuleDeclaration
        } else if t.kind == TokenKind::Symbol && text == ";"@ {
            TopLevelItemKind::Other
        } else {
            classify(src, toks, i + 1)
        }
    }
}

/// Just past the first `;` at or after `i`, or the token count.
pub open spec fn statement_end(src: Seq<char>, toks: Seq<Token>, i: int) -> int
    decreases toks.len() - i,
{
    if i < 0 || i >= toks.len() {
        toks.len() as int
    } else if toks[i].kind == TokenKind::Symbol && tok_text(src, toks[i]) == ";"@ {
        i + 1
    } else {
        statement_end(src, toks, i + 1)
    }
}

/// Just past the `;` at brace depth zero or the `}` that closes the braces
/// opened from `i` on (`depth` braces being open already), or the token count.
pub open spec fn item_end(src: Seq<char>, toks: Seq<Token>, i: int, depth: nat) -> int
    decreases toks.len() - i,
{
    if i < 0 || i >= toks.len() {
        toks.len() as int
    } else if toks[i].kind == TokenKind::Symbol {
        let text = tok_text(src, toks[i]);
        if text == ";"@ && depth == 0 {
            i + 1
        } else if text == "{"@ {
            item_end(src, toks, i + 1, depth + 1)
        } else if text == "}"@ {
            if depth <= 1 {
                i + 1
            } else {
                item_end(src, toks, i + 1, (depth - 1) as nat)
            }
        } else {
            item_end(src, toks, i + 1, depth)
        }
    } else {
        item_end(src, toks, i + 1, depth)
    }
}

/// Where the item of the given kind that starts at `start` ends.
pub open spec fn end_of_item(src: Seq<char>, toks: Seq<Token>, kind: TopLevelItemKind, start: int) -> int {
    if kind == TopLevelItemKind::Package || kind == TopLevelItemKind::Import {
        statement_end(src, toks, start)
    } else {
        item_end(src, toks, start, 0)
    }
}

/// The outline from token `i` on: each item starts at the next token that is
/// not trivia, and the following item is looked for after its end.
pub open spec fn spec_outline(src: Seq<char>, toks: Seq<Token>, i: int) -> Seq<TopLevelItem>
    decreases toks.len() - i,
{
    match next_start(toks, i) {
        None => Seq::empty(),
        Some(start) => {
            let kind = classify(src, toks, start);
            let end = end_of_item(src, toks, kind, start);
            let next = if end > start + 1 { end } else { start + 1 };
            if i < next <= toks.len() && 0 <= start && 0 <= end <= usize::MAX {
                seq![TopLevelItem { kind, start_token: start as usize, end_token: end as usize }]
                    + spec_outline(src, toks, next)
            } else {
                Seq::empty()
            }
        }
    }
}

proof fn lemma_next_start(toks: Seq<Token>, i: int)
    ensures
        next_start(toks, i) matches Some(s) ==> i <= s < toks.len() && !is_trivia(toks[s].kind),
    decreases toks.len() - i,
{
    if 0 <= i < toks.len() && is_trivia(toks[i].kind) {
        lemma_next_start(toks, i + 1);
    }
}

proof fn lemma_statement_end(src: Seq<char>, toks: Seq<Token>, i: int)
    requires
        0 <= i,
    ensures
        statement_end(src, toks, i) <= toks.len(),
        i < toks.len() ==> i < statement_end(src, toks, i),
    decreases toks.len() - i,
{
    if i < toks.len() && !(toks[i].kind == TokenKind::Symbol && tok_text(src, toks[i]) == ";"@) {
        lemma_statement_end(src, toks, i + 1);
    }
}

proof fn lemma_item_end(src: Seq<char>, toks: Seq<Token>, i: int, depth: nat)
    requires
        0 <= i,
    ensures
        item_end(src, toks, i, depth) <= toks.len(),
        i < toks.len() ==> i < item_end(src, toks, i, depth),
    decreases toks.len() - i,
{
    if i < toks.len() {
        if toks[i].kind == TokenKind::Symbol {
            let text = tok_text(src, toks[i]);
            if text == ";"@ && depth == 0 {
            } else if text == "{"@ {
                lemma_item_end(src, toks, i + 1, depth + 1);
            } else if text == "}"@ {
                if depth > 1 {
                    lemma_item_end(src, toks, i + 1, (depth - 1) as nat);
                }
            } else {
                lemma_item_end(src, toks, i + 1, depth);
            }
        } else {
            lemma_item_end(src, toks, i + 1, depth);
        }
    }
}

fn token_is(cst: &Cst, index: usize, s: &str) -> (r: bool)
    requires
        cst.wf(),
        index < cst.tokens@.len(),
    ensures
        r == (tok_text(cst.source@, cst.tokens@[index as int]) == s@),
{
    let t = cst.tokens[index];
    assert(cst.tokens@[index as int].start < cst.tokens@[index as int].end);
    span_is(&cst.source, t.start, t.end, s)
}

fn next_top_level_start(cst: &Cst, index: usize) -> (r: Option<usize>)
    ensures
        match r {
            Some(s) => next_start(cst.tokens@, index as int) == Some(s as int),
            None => next_start(cst.tokens@, index as int) is None,
        },
{
    let mut i = index;
    while i < cst.tokens.len()
        invariant
            index <= i,
            next_start(cst.tokens@, index as int) == next_start(cst.tokens@, i as int),
        decreases cst.tokens@.len() - i,
    {
        match cst.tokens[i].kind {
            TokenKind::Whitespace | TokenKind::Newline | TokenKind::LineComment
            | TokenKind::BlockComment => {
                i = i + 1;
            },
            _ => return Some(i),
        }
    }
    None
}

fn classify_top_level_item(cst: &Cst, start: usize) -> (r: TopLevelItemKind)
    requires
        cst.wf(),
    ensures
        r == classify(cst.source@, cst.tokens@, start as int),
{
    let mut i = start;
    while i < cst.tokens.len()
        invariant
            cst.wf(),
            start <= i,
            classify(cst.source@, cst.tokens@, start as int) == classify(
                cst.source@,
                cst.tokens@,
                i as int,
            ),
        decreases cst.tokens@.len() - i,
    {
        match cst.tokens[i].kind {
            TokenKind::Word => {
                if token_is(cst, i, "package") {
                    return TopLevelItemKind::Package;
                } else if token_is(cst, i, "import") {
                    return TopLevelItemKind::Import;
                } else if token_is(cst, i, "class") || token_is(cst, i, "interface") || token_is(
                    cst,
                    i,
                    "record",
                ) || token_is(cst, i, "enum") {
                    return TopLevelItemKind::TypeDeclaration;
                } else if token_is(cst, i, "module") {
                    return TopLevelItemKind::ModuleDeclaration;
                }
                i = i + 1;
            },
            TokenKind::Symbol => {
                if token_is(cst, i, ";") {
                    return TopLevelItemKind::Other;
                }
                i = i + 1;
            },
            _ => {
                i = i + 1;
            },
        }
    }
    TopLevelItemKind::Other
}

fn scan_statement_end(cst: &Cst, index: usize) -> (r: usize)
    requires
        cst.wf(),
    ensures
        r == statement_end(cst.source@, cst.tokens@, index as int),
{
    let mut i = index;
    while i < cst.tokens.len()
        invariant
            cst.wf(),
            index <= i,
            statement_end(cst.source@, cst.tokens@, index as int) == statement_end(
                cst.source@,
                cst.tokens@,
                i as int,
            ),
        decreases cst.tokens@.len() - i,
    {
        if cst.tokens[i].kind == TokenKind::Symbol && token_is(cst, i, ";") {
            return i + 1;
        }
        i = i + 1;
    }
    cst.tokens.len()
}

fn scan_top_level_item_end(cst: &Cst, index: usize) -> (r: usize)
    requires
        cst.wf(),
    ensures
        r == item_end(cst.source@, cst.tokens@, index as int, 0),
{
    let mut brace_depth: usize = 0;
    let mut i = index;
    while i < cst.tokens.len()
        invariant
            cst.wf(),
            index <= i,
            brace_depth <= i - index,
            item_end(cst.source@, cst.tokens@, index as int, 0) == item_end(
                cst.source@,
                cst.tokens@,
                i as int,
                brace_depth as nat,
            ),
        decreases cst.tokens@.len() - i,
    {
        if cst.tokens[i].kind == TokenKind::Symbol {
            if token_is(cst, i, ";") && brace_depth == 0 {
                return i + 1;
            } else if token_is(cst, i, "{") {
                brace_depth = brace_depth + 1;
            } else if token_is(cst, i, "}") {
                brace_depth = if brace_depth > 0 { brace_depth - 1 } else { 0 };
                if brace_depth == 0 {
                    return i + 1;
                }
            }
        }
        i = i + 1;
    }
    cst.tokens.len()
}

fn build_outline(cst: &Cst) -> (outline: FileOutline)
    requires
        cst.wf(),
    ensures
        outline.items@ == spec_outline(cst.source@, cst.tokens@, 0),
{
    let mut items: Vec<TopLevelItem> = Vec::new();
    let mut index: usize = 0;
    loop
        invariant
            cst.wf(),
            index <= cst.tokens@.len(),
            spec_outline(cst.source@, cst.tokens@, 0) == items@ + spec_outline(
                cst.source@,
                cst.tokens@,
                index as int,
            ),
        decreases cst.tokens@.len() - index,
    {
        match next_top_level_start(cst, index) {
            None => {
                assert(items@ + Seq::<TopLevelItem>::empty() =~= items@);
                return FileOutline { items };
            },
            Some(start) => {
                proof {
                    lemma_next_start(cst.tokens@, index as int);
                    lemma_statement_end(cst.source@, cst.tokens@, start as int);
                    lemma_item_end(cst.source@, cst.tokens@, start as int, 0);
                }
                let kind = classify_top_level_item(cst, start);
                let end_token = match kind {
                    TopLevelItemKind::Package | TopLevelItemKind::Import => scan_statement_end(
                        cst,
                        start,
                    ),
                    _ => scan_top_level_item_end(cst, start),
                };
                let item = TopLevelItem { kind, start_token: start, end_token };
                let next = if end_token > start + 1 {
                    end_token
                } else {
                    start + 1
                };
                assert(spec_outline(cst.source@, cst.tokens@, index as int) == seq![item]
                    + spec_outline(cst.source@, cst.tokens@, next as int));
                let ghost before = items@;
                items.push(item);
                assert(before + (seq![item] + spec_outline(cst.source@, cst.tokens@, next as int))
                    =~= items@ + spec_outline(cst.source@, cst.tokens@, next as int));
                index = next;
            },
        }
    }
}

/// Every item of the outline lies within the tokens, in order.
pub proof fn lemma_outline_bounds(src: Seq<char>, toks: Seq<Token>, i: int)
    requires
        0 <= i,
    ensures
        forall|k: int|
            0 <= k < spec_outline(src, toks, i).len() ==> (#[trigger] spec_outline(src, toks, i)[k]).start_token
                < spec_outline(src, toks, i)[k].end_token <= toks.len(),
    decreases toks.len() - i,
{
    lemma_next_start(toks, i);
    match next_start(toks, i) {
        None => {},
        Some(start) => {
            let kind = classify(src, toks, start);
            let end = end_of_item(src, toks, kind, start);
            let next = if end > start + 1 {
                end
            } else {
                start + 1
            };
            lemma_statement_end(src, toks, start);
            lemma_item_end(src, toks, start, 0);
            if i < next <= toks.len() && 0 <= start && 0 <= end <= usize::MAX {
                lemma_outline_bounds(src, toks, next);
                let out = spec_outline(src, toks, i);
                let rest = spec_outline(src, toks, next);
                assert forall|k: int| 0 <= k < out.len() implies (#[trigger] out[k]).start_token
                    < out[k].end_token <= toks.len() by {
                    if k > 0 {
                        assert(out[k] == rest[k - 1]);
                    }
                }
            }
        },
    }
}

impl ParsedFile {
    /// The tokens tile the source and every outlined item lies within them.
    pub open spec fn wf(&self) -> bool {
        &&& self.cst.wf()
        &&& forall|k: int|
            0 <= k < self.outline.items@.len() ==> (#[trigger] self.outline.items@[k]).start_token
                < self.outline.items@[k].end_token <= self.cst.tokens@.len()
    }
}

/// Lexes a file, counts its comments and outlines its top-level items.
pub fn parse(source: &str) -> (parsed: ParsedFile)
    ensures
        parsed.cst.source@ == source@,
        parsed.cst.tokens@ == spec_lex(source@),
        parsed.cst.wf(),
        parsed.comments.line_comment_count == count_kind(spec_lex(source@), TokenKind::LineComment),
        parsed.comments.block_comment_count == count_kind(spec_lex(source@), TokenKind::BlockComment),
        parsed.outline.items@ == spec_outline(source@, spec_lex(source@), 0),
        parsed.wf(),
{
    let lexed = lex(source);
    parse_lexed(lexed)
}

/// Outlines an already lexed file.
pub fn parse_lexed(lexed: crate::lexer::LexedSource) -> (parsed: ParsedFile)
    requires
        tokens_tile(lexed.tokens@, 0, lexed.source@.len() as int),
    ensures
        parsed.cst.source@ == lexed.source@,
        parsed.cst.tokens@ == lexed.tokens@,
        parsed.cst.wf(),
        parsed.comments.line_comment_count == count_kind(lexed.tokens@, TokenKind::LineComment),
        parsed.comments.block_comment_count == count_kind(lexed.tokens@, TokenKind::BlockComment),
        parsed.outline.items@ == spec_outline(lexed.source@, lexed.tokens@, 0),
        parsed.wf(),
{
    let cst = crate::parser::parse(&lexed);
    let comments = attach(&cst, &lexed);
    let outline = build_outline(&cst);
    proof {
        lemma_outline_bounds(cst.source@, cst.tokens@, 0);
    }
    ParsedFile { cst, comments, outline }
}

} // verus!
