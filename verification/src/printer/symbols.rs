//! Operators: Java's multi-character operators are lexed as runs of
//! one-character symbol tokens and are put back together here.
use vstd::prelude::*;
use crate::printer::toks::Toks;
use crate::text::text_is;

verus! {

#[derive(Debug, Clone, Copy, PartialEq, Eq, Structural)]
pub enum Sym {
    At,
    LBrace,
    RBrace,
    Semi,
    Comma,
    LParen,
    RParen,
    Dot,
    LBracket,
    RBracket,
    ColonColon,
    PlusPlus,
    MinusMinus,
    Plus,
    Assign,
    Minus,
    Bang,
    Tilde,
    Question,
    Colon,
    PlusEq,
    MinusEq,
    StarEq,
    SlashEq,
    PercentEq,
    AmpEq,
    PipeEq,
    CaretEq,
    EqEq,
    BangEq,
    LtEq,
    GtEq,
    AmpAmp,
    PipePipe,
    Star,
    Slash,
    Percent,
    Amp,
    Pipe,
    Caret,
    Arrow,
    Lt,
    Gt,
    Ellipsis,
    GtGt,
    GtGtGt,
    LtLt,
    LtLtEq,
    GtGtEq,
    GtGtGtEq,
    Other,
}

/// The text of an operator.
pub open spec fn sym_text(s: Sym) -> Seq<char> {
    match s {
        Sym::At => "@"@,
        Sym::LBrace => "{"@,
        Sym::RBrace => "}"@,
        Sym::Semi => ";"@,
        Sym::Comma => ","@,
        Sym::LParen => "("@,
        Sym::RParen => ")"@,
        Sym::Dot => "."@,
        Sym::LBracket => "["@,
        Sym::RBracket => "]"@,
        Sym::ColonColon => "::"@,
        Sym::PlusPlus => "++"@,
        Sym::MinusMinus => "--"@,
        Sym::Plus => "+"@,
        Sym::Assign => "="@,
        Sym::Minus => "-"@,
        Sym::Bang => "!"@,
        Sym::Tilde => "~"@,
        Sym::Question => "?"@,
        Sym::Colon => ":"@,
        Sym::PlusEq => "+="@,
        Sym::MinusEq => "-="@,
        Sym::StarEq => "*="@,
        Sym::SlashEq => "/="@,
        Sym::PercentEq => "%="@,
        Sym::AmpEq => "&="@,
        Sym::PipeEq => "|="@,
        Sym::CaretEq => "^="@,
        Sym::EqEq => "=="@,
        Sym::BangEq => "!="@,
        Sym::LtEq => "<="@,
        Sym::GtEq => ">="@,
        Sym::AmpAmp => "&&"@,
        Sym::PipePipe => "||"@,
        Sym::Star => "*"@,
        Sym::Slash => "/"@,
        Sym::Percent => "%"@,
        Sym::Amp => "&"@,
        Sym::Pipe => "|"@,
        Sym::Caret => "^"@,
        Sym::Arrow => "->"@,
        Sym::Lt => "<"@,
        Sym::Gt => ">"@,
        Sym::Ellipsis => "..."@,
        Sym::GtGt => ">>"@,
        Sym::GtGtGt => ">>>"@,
        Sym::LtLt => "<<"@,
        Sym::LtLtEq => "<<="@,
        Sym::GtGtEq => ">>="@,
        Sym::GtGtGtEq => ">>>="@,
        Sym::Other => Seq::empty(),
    }
}

/// The operator whose text `t` is, or `Other`.
pub open spec fn sym_of(t: Seq<char>) -> Sym {
    if t == "@"@ {
        Sym::At
    } else if t == "{"@ {
        Sym::LBrace
    } else if t == "}"@ {
        Sym::RBrace
    } else if t == ";"@ {
        Sym::Semi
    } else if t == ","@ {
        Sym::Comma
    } else if t == "("@ {
        Sym::LParen
    } else if t == ")"@ {
        Sym::RParen
    } else if t == "."@ {
        Sym::Dot
    } else if t == "["@ {
        Sym::LBracket
    } else if t == "]"@ {
        Sym::RBracket
    } else if t == "::"@ {
        Sym::ColonColon
    } else if t == "++"@ {
        Sym::PlusPlus
    } else if t == "--"@ {
        Sym::MinusMinus
    } else if t == "+"@ {
        Sym::Plus
    } else if t == "="@ {
        Sym::Assign
    } else if t == "-"@ {
        Sym::Minus
    } else if t == "!"@ {
        Sym::Bang
    } else if t == "~"@ {
        Sym::Tilde
    } else if t == "?"@ {
        Sym::Question
    } else if t == ":"@ {
        Sym::Colon
    } else if t == "+="@ {
        Sym::PlusEq
    } else if t == "-="@ {
        Sym::MinusEq
    } else if t == "*="@ {
        Sym::StarEq
    } else if t == "/="@ {
        Sym::SlashEq
    } else if t == "%="@ {
        Sym::PercentEq
    } else if t == "&="@ {
        Sym::AmpEq
    } else if t == "|="@ {
        Sym::PipeEq
    } else if t == "^="@ {
        Sym::CaretEq
    } else if t == "=="@ {
        Sym::EqEq
    } else if t == "!="@ {
        Sym::BangEq
    } else if t == "<="@ {
        Sym::LtEq
    } else if t == ">="@ {
        Sym::GtEq
    } else if t == "&&"@ {
        Sym::AmpAmp
    } else if t == "||"@ {
        Sym::PipePipe
    } else if t == "*"@ {
        Sym::Star
    } else if t == "/"@ {
        Sym::Slash
    } else if t == "%"@ {
        Sym::Percent
    } else if t == "&"@ {
        Sym::Amp
    } else if t == "|"@ {
        Sym::Pipe
    } else if t == "^"@ {
        Sym::Caret
    } else if t == "->"@ {
        Sym::Arrow
    } else if t == "<"@ {
        Sym::Lt
    } else if t == ">"@ {
        Sym::Gt
    } else if t == "..."@ {
        Sym::Ellipsis
    } else if t == ">>"@ {
        Sym::GtGt
    } else if t == ">>>"@ {
        Sym::GtGtGt
    } else if t == "<<"@ {
        Sym::LtLt
    } else if t == "<<="@ {
        Sym::LtLtEq
    } else if t == ">>="@ {
        Sym::GtGtEq
    } else if t == ">>>="@ {
        Sym::GtGtGtEq
    } else {
        Sym::Other
    }
}


/// The operator whose text `t` is, or `Other`.
pub fn classify_symbol(t: &[char]) -> (r: Sym)
    ensures
        r == sym_of(t@),
        r != Sym::Other ==> t@ == sym_text(r),
{
    if text_is(t, "@") { Sym::At }
    else if text_is(t, "{") { Sym::LBrace }
    else if text_is(t, "}") { Sym::RBrace }
    else if text_is(t, ";") { Sym::Semi }
    else if text_is(t, ",") { Sym::Comma }
    else if text_is(t, "(") { Sym::LParen }
    else if text_is(t, ")") { Sym::RParen }
    else if text_is(t, ".") { Sym::Dot }
    else if text_is(t, "[") { Sym::LBracket }
    else if text_is(t, "]") { Sym::RBracket }
    else if text_is(t, "::") { Sym::ColonColon }
    else if text_is(t, "++") { Sym::PlusPlus }
    else if text_is(t, "--") { Sym::MinusMinus }
    else if text_is(t, "+") { Sym::Plus }
    else if text_is(t, "=") { Sym::Assign }
    else if text_is(t, "-") { Sym::Minus }
    else if text_is(t, "!") { Sym::Bang }
    else if text_is(t, "~") { Sym::Tilde }
    else if text_is(t, "?") { Sym::Question }
    else if text_is(t, ":") { Sym::Colon }
    else if text_is(t, "+=") { Sym::PlusEq }
    else if text_is(t, "-=") { Sym::MinusEq }
    else if text_is(t, "*=") { Sym::StarEq }
    else if text_is(t, "/=") { Sym::SlashEq }
    else if text_is(t, "%=") { Sym::PercentEq }
    else if text_is(t, "&=") { Sym::AmpEq }
    else if text_is(t, "|=") { Sym::PipeEq }
    else if text_is(t, "^=") { Sym::CaretEq }
    else if text_is(t, "==") { Sym::EqEq }
    else if text_is(t, "!=") { Sym::BangEq }
    else if text_is(t, "<=") { Sym::LtEq }
    else if text_is(t, ">=") { Sym::GtEq }
    else if text_is(t, "&&") { Sym::AmpAmp }
    else if text_is(t, "||") { Sym::PipePipe }
    else if text_is(t, "*") { Sym::Star }
    else if text_is(t, "/") { Sym::Slash }
    else if text_is(t, "%") { Sym::Percent }
    else if text_is(t, "&") { Sym::Amp }
    else if text_is(t, "|") { Sym::Pipe }
    else if text_is(t, "^") { Sym::Caret }
    else if text_is(t, "->") { Sym::Arrow }
    else if text_is(t, "<") { Sym::Lt }
    else if text_is(t, ">") { Sym::Gt }
    else if text_is(t, "...") { Sym::Ellipsis }
    else if text_is(t, ">>") { Sym::GtGt }
    else if text_is(t, ">>>") { Sym::GtGtGt }
    else if text_is(t, "<<") { Sym::LtLt }
    else if text_is(t, "<<=") { Sym::LtLtEq }
    else if text_is(t, ">>=") { Sym::GtGtEq }
    else if text_is(t, ">>>=") { Sym::GtGtGtEq }
    else { Sym::Other }
}

/// The text of token `i`, when there is one.
pub open spec fn text_of(tk: &Toks, i: int) -> Option<Seq<char>> {
    if 0 <= i < tk.len() {
        Some(tk.texts@[i]@)
    } else {
        None
    }
}

/// Token `i + 1` follows token `i` with nothing between them.
pub open spec fn touches(tk: &Toks, i: int) -> bool {
    0 <= i && i + 1 < tk.len() && tk.toks@[i].end == tk.toks@[i + 1].start
}

/// The operator that starts at symbol token `i`, with the number of tokens it
/// spans: `...` and `>>>` (and `>>>=`) from three or four adjacent tokens, the
/// two-character operators from two adjacent tokens (`<<=` and `>>=` taking a
/// third), and otherwise the token itself.
pub open spec fn symbol_at(tk: &Toks, i: int) -> (Seq<char>, nat) {
    let first = tk.texts@[i]@;
    let second = text_of(tk, i + 1);
    let third = text_of(tk, i + 2);
    let fourth = text_of(tk, i + 3);
    let c12 = touches(tk, i);
    let c23 = touches(tk, i + 1);
    if first == "."@ && second == Some("."@) && third == Some("."@) && c12 && c23 {
        ("..."@, 3)
    } else if first == ">"@ && second == Some(">"@) && third == Some(">"@) && c12 && c23 {
        if fourth == Some("="@) {
            (">>>="@, 4)
        } else {
            (">>>"@, 3)
        }
    } else if c12 && pair_op(first, second.unwrap()) is Some {
        let op = pair_op(first, second.unwrap()).unwrap();
        if op == "<<"@ && third == Some("="@) {
            ("<<="@, 3)
        } else if op == ">>"@ && third == Some("="@) {
            (">>="@, 3)
        } else {
            (op, 2)
        }
    } else {
        (first, 1)
    }
}

/// The two-character operator spelled by two symbol texts.
pub open spec fn pair_op(a: Seq<char>, b: Seq<char>) -> Option<Seq<char>> {
    if a == "="@ && b == "="@ {
        Some("=="@)
    } else if a == "!"@ && b == "="@ {
        Some("!="@)
    } else if a == "<"@ && b == "="@ {
        Some("<="@)
    } else if a == ">"@ && b == "="@ {
        Some(">="@)
    } else if a == "+"@ && b == "+"@ {
        Some("++"@)
    } else if a == "-"@ && b == "-"@ {
        Some("--"@)
    } else if a == "&"@ && b == "&"@ {
        Some("&&"@)
    } else if a == "|"@ && b == "|"@ {
        Some("||"@)
    } else if a == "+"@ && b == "="@ {
        Some("+="@)
    } else if a == "-"@ && b == "="@ {
        Some("-="@)
    } else if a == "*"@ && b == "="@ {
        Some("*="@)
    } else if a == "/"@ && b == "="@ {
        Some("/="@)
    } else if a == "%"@ && b == "="@ {
        Some("%="@)
    } else if a == "&"@ && b == "="@ {
        Some("&="@)
    } else if a == "|"@ && b == "="@ {
        Some("|="@)
    } else if a == "^"@ && b == "="@ {
        Some("^="@)
    } else if a == "<"@ && b == "<"@ {
        Some("<<"@)
    } else if a == ">"@ && b == ">"@ {
        Some(">>"@)
    } else if a == "-"@ && b == ">"@ {
        Some("->"@)
    } else if a == ":"@ && b == ":"@ {
        Some("::"@)
    } else {
        None
    }
}

fn opt_text_is(tk: &Toks, i: usize, s: &str) -> (r: bool)
    requires
        tk.wf(),
    ensures
        r == (text_of(tk, i as int) == Some(s@)),
{
    i < tk.count() && tk.is(i, s)
}

fn exec_pair_op(a: &[char], b: &[char]) -> (r: Option<Vec<char>>)
    ensures
        match r {
            Some(op) => pair_op(a@, b@) == Some(op@),
            None => pair_op(a@, b@) is None,
        },
{
    let op: &str = if text_is(a, "=") && text_is(b, "=") { "==" }
    else if text_is(a, "!") && text_is(b, "=") { "!=" }
    else if text_is(a, "<") && text_is(b, "=") { "<=" }
    else if text_is(a, ">") && text_is(b, "=") { ">=" }
    else if text_is(a, "+") && text_is(b, "+") { "++" }
    else if text_is(a, "-") && text_is(b, "-") { "--" }
    else if text_is(a, "&") && text_is(b, "&") { "&&" }
    else if text_is(a, "|") && text_is(b, "|") { "||" }
    else if text_is(a, "+") && text_is(b, "=") { "+=" }
    else if text_is(a, "-") && text_is(b, "=") { "-=" }
    else if text_is(a, "*") && text_is(b, "=") { "*=" }
    else if text_is(a, "/") && text_is(b, "=") { "/=" }
    else if text_is(a, "%") && text_is(b, "=") { "%=" }
    else if text_is(a, "&") && text_is(b, "=") { "&=" }
    else if text_is(a, "|") && text_is(b, "=") { "|=" }
    else if text_is(a, "^") && text_is(b, "=") { "^=" }
    else if text_is(a, "<") && text_is(b, "<") { "<<" }
    else if text_is(a, ">") && text_is(b, ">") { ">>" }
    else if text_is(a, "-") && text_is(b, ">") { "->" }
    else if text_is(a, ":") && text_is(b, ":") { "::" }
    else { return None; };
    Some(crate::text::vec_of(op))
}

/// Reads the operator that starts at symbol token `index`.
pub fn read_symbol(tk: &Toks, index: usize) -> (r: (Vec<char>, usize))
    requires
        tk.wf(),
        index < tk.len(),
    ensures
        r.0@ == symbol_at(tk, index as int).0,
        r.1 == symbol_at(tk, index as int).1,
        1 <= r.1 <= 4,
        index + r.1 <= tk.len(),
{
    let n = tk.count();
    let c12 = index + 1 < n && tk.touching(index, index + 1);
    let c23 = index + 2 < n && tk.touching(index + 1, index + 2);
    let first = &tk.texts[index];
    if tk.is(index, ".") && opt_text_is(tk, index + 1, ".") && opt_text_is(tk, index + 2, ".")
        && c12 && c23 {
        return (crate::text::vec_of("..."), 3);
    }
    if tk.is(index, ">") && opt_text_is(tk, index + 1, ">") && opt_text_is(tk, index + 2, ">")
        && c12 && c23 {
        if opt_text_is(tk, index + 3, "=") {
            return (crate::text::vec_of(">>>="), 4);
        }
        return (crate::text::vec_of(">>>"), 3);
    }
    if c12 {
        match exec_pair_op(first, &tk.texts[index + 1]) {
            Some(op) => {
                if text_is(&op, "<<") && opt_text_is(tk, index + 2, "=") {
                    return (crate::text::vec_of("<<="), 3);
                }
                if text_is(&op, ">>") && opt_text_is(tk, index + 2, "=") {
                    return (crate::text::vec_of(">>="), 3);
                }
                return (op, 2);
            },
            None => {},
        }
    }
    (crate::text::copy_chars(first), 1)
}

/// The view of an optional text.
pub open spec fn opt_view(o: Option<Vec<char>>) -> Option<Seq<char>> {
    match o {
        Some(t) => Some(t@),
        None => None,
    }
}

/// The text that follows at `index`: the operator there, the word or
/// literal there, or else the text of the token after it.
pub open spec fn next_text_spec(tk: &Toks, index: int) -> Option<Seq<char>> {
    if index < 0 || index >= tk.len() {
        None
    } else if tk.toks@[index].kind == crate::lexer::TokenKind::Symbol {
        Some(symbol_at(tk, index).0)
    } else if tk.toks@[index].kind == crate::lexer::TokenKind::Word || tk.toks@[index].kind
        == crate::lexer::TokenKind::StringLiteral || tk.toks@[index].kind
        == crate::lexer::TokenKind::CharLiteral {
        Some(tk.texts@[index]@)
    } else if index + 1 < tk.len() {
        Some(tk.texts@[index + 1]@)
    } else {
        None
    }
}

/// An operator spans one to four tokens.
pub proof fn lemma_symbol_len(tk: &Toks, i: int)
    ensures
        1 <= symbol_at(tk, i).1 <= 4,
        0 <= i < tk.len() ==> i + symbol_at(tk, i).1 <= tk.len(),
{
}

/// The text of the next symbol, word or literal at `index`; after a comment,
/// the text of the token that follows it.
pub fn next_symbol_text(tk: &Toks, index: usize) -> (r: Option<Vec<char>>)
    requires
        tk.wf(),
    ensures
        opt_view(r) == next_text_spec(tk, index as int),
{
    if index >= tk.count() {
        return None;
    }
    match tk.kind(index) {
        crate::lexer::TokenKind::Symbol => {
            let (text, _) = read_symbol(tk, index);
            Some(text)
        },
        crate::lexer::TokenKind::Word | crate::lexer::TokenKind::StringLiteral
        | crate::lexer::TokenKind::CharLiteral => Some(tk.text(index)),
        _ => {
            if index + 1 < tk.count() {
                Some(tk.text(index + 1))
            } else {
                None
            }
        },
    }
}

/// The optional text equals `s`.
pub fn opt_is(o: &Option<Vec<char>>, s: &str) -> (r: bool)
    ensures
        r == (o matches Some(t) && t@ == s@),
{
    match o {
        Some(t) => text_is(t, s),
        None => false,
    }
}

/// A two-character operator is spelled by its two texts.
pub proof fn lemma_pair_op_text(a: Seq<char>, b: Seq<char>)
    ensures
        pair_op(a, b) matches Some(op) ==> op == a + b,
{
    reveal_strlit("=");
    reveal_strlit("!");
    reveal_strlit("<");
    reveal_strlit(">");
    reveal_strlit("+");
    reveal_strlit("-");
    reveal_strlit("&");
    reveal_strlit("|");
    reveal_strlit("*");
    reveal_strlit("/");
    reveal_strlit("%");
    reveal_strlit("^");
    reveal_strlit(":");
    reveal_strlit("==");
    reveal_strlit("!=");
    reveal_strlit("<=");
    reveal_strlit(">=");
    reveal_strlit("++");
    reveal_strlit("--");
    reveal_strlit("&&");
    reveal_strlit("||");
    reveal_strlit("+=");
    reveal_strlit("-=");
    reveal_strlit("*=");
    reveal_strlit("/=");
    reveal_strlit("%=");
    reveal_strlit("&=");
    reveal_strlit("|=");
    reveal_strlit("^=");
    reveal_strlit("<<");
    reveal_strlit(">>");
    reveal_strlit("->");
    reveal_strlit("::");
    if pair_op(a, b) is Some {
        assert(pair_op(a, b).unwrap() =~= a + b);
    }
}

/// The operator that starts at token `i` is spelled by the texts of the
/// tokens it spans.
pub proof fn lemma_symbol_text(tk: &Toks, i: int)
    requires
        tk.wf(),
        0 <= i < tk.len(),
    ensures
        symbol_at(tk, i).0 == tk.texts_from(i, i + symbol_at(tk, i).1),
        i + symbol_at(tk, i).1 <= tk.len(),
{
    reveal_strlit(".");
    reveal_strlit("...");
    reveal_strlit(">");
    reveal_strlit(">>>");
    reveal_strlit(">>>=");
    reveal_strlit("=");
    reveal_strlit("<<");
    reveal_strlit(">>");
    reveal_strlit("<<=");
    reveal_strlit(">>=");
    let first = tk.texts@[i]@;
    crate::printer::toks::lemma_texts_from_one(tk, i);
    let c = symbol_at(tk, i).1 as int;
    if c >= 2 {
        assert(tk.texts_from(i, i + 2) == tk.texts_from(i, i + 1) + tk.texts@[i + 1]@);
    }
    if c >= 3 {
        assert(tk.texts_from(i, i + 3) == tk.texts_from(i, i + 2) + tk.texts@[i + 2]@);
    }
    if c >= 4 {
        assert(tk.texts_from(i, i + 4) == tk.texts_from(i, i + 3) + tk.texts@[i + 3]@);
    }
    lemma_pair_op_text(first, tk.texts@[i + 1]@);
    if c == 3 && first == "<"@ {
        assert(symbol_at(tk, i).0 =~= tk.texts_from(i, i + 3));
    }
    assert(symbol_at(tk, i).0 =~= tk.texts_from(i, i + c));
}

} // verus!
