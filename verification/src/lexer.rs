//! Splits Java source text into tokens.
//!
//! The lexer is lossless: every character of the source belongs to exactly
//! one token, and the tokens follow one another without gaps
//! (`lemma_lex_partitions`). Offsets are character offsets.
use vstd::prelude::*;
use crate::text::chars_of;

verus! {

#[derive(Debug, Clone, Copy, PartialEq, Eq, Structural)]
pub enum TokenKind {
    Newline,
    Whitespace,
    Word,
    Symbol,
    LineComment,
    BlockComment,
    StringLiteral,
    CharLiteral,
}

#[derive(Debug, Clone, Copy, PartialEq, Eq, Structural)]
pub struct Token {
    pub kind: TokenKind,
    pub start: usize,
    pub end: usize,
}

/// A source text together with its tokens.
#[derive(Debug, Clone)]
pub struct LexedSource {
    pub source: Vec<char>,
    pub tokens: Vec<Token>,
}

/// Whether `char::is_whitespace` holds of a character (Unicode `White_Space`).
pub uninterp spec fn char_is_whitespace(c: char) -> bool;

/// Whether `char::is_alphanumeric` holds of a character (Unicode `Alphabetic` or `Numeric`).
pub uninterp spec fn char_is_alphanumeric(c: char) -> bool;

/// Calls `char::is_whitespace`. Its result is named `char_is_whitespace`; for
/// ASCII characters std's source shows that it holds exactly of the space and
/// of `'\t'` through `'\r'`.
#[verifier::external_body]
pub fn is_whitespace(c: char) -> (r: bool)
    ensures
        r == char_is_whitespace(c),
        (c as u32) < 128 ==> (r <==> (c == ' ' || ('\t' <= c && c <= '\r'))),
{
    c.is_whitespace()
}

/// Calls `char::is_alphanumeric`. Its result is named `char_is_alphanumeric`;
/// for ASCII characters std's source shows that it holds exactly of the
/// letters and the digits.
#[verifier::external_body]
pub fn is_alphanumeric(c: char) -> (r: bool)
    ensures
        r == char_is_alphanumeric(c),
        (c as u32) < 128 ==> (r <==> (('a' <= c && c <= 'z') || ('A' <= c && c <= 'Z') || (
        '0' <= c && c <= '9'))),
{
    c.is_alphanumeric()
}

/// Characters that make up words: identifiers, keywords and numbers.
pub open spec fn spec_is_word_char(c: char) -> bool {
    char_is_alphanumeric(c) || c == '_'
}

pub fn is_word_char(c: char) -> (r: bool)
    ensures
        r == spec_is_word_char(c),
{
    is_alphanumeric(c) || c == '_'
}

/// Index of the first `'\n'` at or after `q`, or the length.
pub open spec fn line_end(s: Seq<char>, q: int) -> int
    decreases s.len() - q,
{
    if q >= s.len() {
        s.len() as int
    } else if s[q] == '\n' {
        q
    } else {
        line_end(s, q + 1)
    }
}

/// End of a block comment whose body starts at `q`: just past the first `*/`
/// at or after `q`, or the length.
pub open spec fn block_comment_end(s: Seq<char>, q: int) -> int
    decreases s.len() - q,
{
    if q >= s.len() {
        s.len() as int
    } else if s[q] == '*' && q + 1 < s.len() && s[q + 1] == '/' {
        q + 2
    } else {
        block_comment_end(s, q + 1)
    }
}

/// End of a text block whose body starts at `q`: just past the first `"""`
/// at or after `q`, or the length.
pub open spec fn text_block_end(s: Seq<char>, q: int) -> int
    decreases s.len() - q,
{
    if q >= s.len() {
        s.len() as int
    } else if s[q] == '"' && q + 2 < s.len() && s[q + 1] == '"' && s[q + 2] == '"' {
        q + 3
    } else {
        text_block_end(s, q + 1)
    }
}

/// End of a quoted literal whose body starts at `q`: just past the first
/// unescaped `quote`, or the length.
pub open spec fn quoted_end(s: Seq<char>, q: int, quote: char) -> int
    decreases s.len() - q,
{
    if q >= s.len() {
        s.len() as int
    } else if s[q] == '\\' {
        if q + 1 < s.len() {
            quoted_end(s, q + 2, quote)
        } else {
            s.len() as int
        }
    } else if s[q] == quote {
        q + 1
    } else {
        quoted_end(s, q + 1, quote)
    }
}

/// End of a run of non-newline whitespace that continues at `q`.
pub open spec fn whitespace_end(s: Seq<char>, q: int) -> int
    decreases s.len() - q,
{
    if q >= s.len() {
        s.len() as int
    } else if s[q] == '\n' || !char_is_whitespace(s[q]) {
        q
    } else {
        whitespace_end(s, q + 1)
    }
}

/// End of a run of word characters that continues at `q`.
pub open spec fn word_end(s: Seq<char>, q: int) -> int
    decreases s.len() - q,
{
    if q >= s.len() {
        s.len() as int
    } else if !spec_is_word_char(s[q]) {
        q
    } else {
        word_end(s, q + 1)
    }
}

/// The token that starts at position `p` (which must be inside `s`): its kind
/// and the position just past it.
pub open spec fn token_at(s: Seq<char>, p: int) -> (TokenKind, int) {
    let c = s[p];
    if c == '\n' {
        (TokenKind::Newline, p + 1)
    } else if c == '/' && p + 1 < s.len() && s[p + 1] == '/' {
        (TokenKind::LineComment, line_end(s, p + 2))
    } else if c == '/' && p + 1 < s.len() && s[p + 1] == '*' {
        (TokenKind::BlockComment, block_comment_end(s, p + 2))
    } else if c == '"' && p + 2 < s.len() && s[p + 1] == '"' && s[p + 2] == '"' {
        (TokenKind::StringLiteral, text_block_end(s, p + 3))
    } else if c == '"' {
        (TokenKind::StringLiteral, quoted_end(s, p + 1, '"'))
    } else if c == '\'' {
        (TokenKind::CharLiteral, quoted_end(s, p + 1, '\''))
    } else if char_is_whitespace(c) {
        (TokenKind::Whitespace, whitespace_end(s, p + 1))
    } else if spec_is_word_char(c) {
        (TokenKind::Word, word_end(s, p + 1))
    } else {
        (TokenKind::Symbol, p + 1)
    }
}

proof fn lemma_line_end(s: Seq<char>, q: int)
    requires
        0 <= q,
    ensures
        q <= line_end(s, q) || q > s.len(),
        line_end(s, q) <= s.len(),
    decreases s.len() - q,
{
    if q < s.len() && s[q] != '\n' {
        lemma_line_end(s, q + 1);
    }
}

proof fn lemma_block_comment_end(s: Seq<char>, q: int)
    requires
        0 <= q <= s.len(),
    ensures
        q <= block_comment_end(s, q) <= s.len(),
    decreases s.len() - q,
{
    if q < s.len() && !(s[q] == '*' && q + 1 < s.len() && s[q + 1] == '/') {
        lemma_block_comment_end(s, q + 1);
    }
}

proof fn lemma_text_block_end(s: Seq<char>, q: int)
    requires
        0 <= q <= s.len(),
    ensures
        q <= text_block_end(s, q) <= s.len(),
    decreases s.len() - q,
{
    if q < s.len() && !(s[q] == '"' && q + 2 < s.len() && s[q + 1] == '"' && s[q + 2] == '"') {
        lemma_text_block_end(s, q + 1);
    }
}

proof fn lemma_quoted_end(s: Seq<char>, q: int, quote: char)
    requires
        0 <= q <= s.len(),
    ensures
        q <= quoted_end(s, q, quote) <= s.len(),
    decreases s.len() - q,
{
    if q < s.len() {
        if s[q] == '\\' {
            if q + 1 < s.len() {
                lemma_quoted_end(s, q + 2, quote);
            }
        } else if s[q] != quote {
            lemma_quoted_end(s, q + 1, quote);
        }
    }
}

/// The number of backslashes right before position `k`, counting no
/// further back than `lo`: the character at `k` is escaped when it is odd.
pub open spec fn backslashes_before(s: Seq<char>, lo: int, k: int) -> nat
    decreases k - lo,
{
    if lo < k && k <= s.len() && s[k - 1] == '\\' {
        1 + backslashes_before(s, lo, k - 1)
    } else {
        0
    }
}

proof fn lemma_backslashes_past_escape(s: Seq<char>, q: int, k: int)
    requires
        0 <= q,
        q + 2 <= k <= s.len(),
        s[q] == '\\',
    ensures
        backslashes_before(s, q, k) % 2 == backslashes_before(s, q + 2, k) % 2,
    decreases k - q,
{
    if k > q + 2 && s[k - 1] == '\\' {
        lemma_backslashes_past_escape(s, q, k - 1);
    } else if k == q + 2 {
        assert(backslashes_before(s, q, q) == 0);
        if s[q + 1] == '\\' {
            assert(backslashes_before(s, q, q + 1) == 1);
        }
    }
}

proof fn lemma_backslashes_past_plain(s: Seq<char>, q: int, k: int)
    requires
        0 <= q,
        q + 1 <= k <= s.len(),
        s[q] != '\\',
    ensures
        backslashes_before(s, q, k) == backslashes_before(s, q + 1, k),
    decreases k - q,
{
    if k > q + 1 && s[k - 1] == '\\' {
        lemma_backslashes_past_plain(s, q, k - 1);
    }
}

/// A backslash in a quoted literal escapes the next character: the literal
/// read from a backslash ends where the literal read from the character
/// after the escaped one ends.
pub proof fn law_quoted_end_skips_escape(s: Seq<char>, q: int, quote: char)
    requires
        0 <= q,
        q + 1 < s.len(),
        s[q] == '\\',
    ensures
        quoted_end(s, q, quote) == quoted_end(s, q + 2, quote),
{
}

/// A quoted literal whose body starts at `q` ends just past its first
/// unescaped `quote` (one after an even run of backslashes): no unescaped
/// quote comes before its end, and an end before the end of the text is
/// just past an unescaped quote.
pub proof fn law_quoted_end_first_unescaped_quote(s: Seq<char>, q: int, quote: char)
    requires
        0 <= q <= s.len(),
        quote != '\\',
    ensures
        q <= quoted_end(s, q, quote) <= s.len(),
        forall|k: int|
            q <= k < quoted_end(s, q, quote) && s[k] == quote && #[trigger] backslashes_before(
                s,
                q,
                k,
            ) % 2 == 0 ==> k == quoted_end(s, q, quote) - 1,
        quoted_end(s, q, quote) < s.len() ==> {
            let e = quoted_end(s, q, quote);
            &&& q < e
            &&& s[e - 1] == quote
            &&& backslashes_before(s, q, e - 1) % 2 == 0
        },
    decreases s.len() - q,
{
    lemma_quoted_end(s, q, quote);
    if q < s.len() {
        let e = quoted_end(s, q, quote);
        if s[q] == '\\' {
            if q + 1 < s.len() {
                law_quoted_end_first_unescaped_quote(s, q + 2, quote);
                assert(backslashes_before(s, q, q) == 0);
                assert(backslashes_before(s, q, q + 1) == 1);
                assert forall|k: int|
                    q <= k < e && s[k] == quote && #[trigger] backslashes_before(s, q, k) % 2
                        == 0 implies k == e - 1 by {
                    if k >= q + 2 {
                        lemma_backslashes_past_escape(s, q, k);
                    }
                }
                if e < s.len() {
                    lemma_backslashes_past_escape(s, q, e - 1);
                }
            }
        } else if s[q] == quote {
            assert(backslashes_before(s, q, q) == 0);
        } else {
            law_quoted_end_first_unescaped_quote(s, q + 1, quote);
            assert forall|k: int|
                q <= k < e && s[k] == quote && #[trigger] backslashes_before(s, q, k) % 2
                    == 0 implies k == e - 1 by {
                if k >= q + 1 {
                    lemma_backslashes_past_plain(s, q, k);
                }
            }
            if e < s.len() {
                lemma_backslashes_past_plain(s, q, e - 1);
            }
        }
    }
}

proof fn lemma_whitespace_end(s: Seq<char>, q: int)
    requires
        0 <= q <= s.len(),
    ensures
        q <= whitespace_end(s, q) <= s.len(),
    decreases s.len() - q,
{
    if q < s.len() && !(s[q] == '\n' || !char_is_whitespace(s[q])) {
        lemma_whitespace_end(s, q + 1);
    }
}

proof fn lemma_word_end(s: Seq<char>, q: int)
    requires
        0 <= q <= s.len(),
    ensures
        q <= word_end(s, q) <= s.len(),
    decreases s.len() - q,
{
    if q < s.len() && spec_is_word_char(s[q]) {
        lemma_word_end(s, q + 1);
    }
}

/// Every token is non-empty and stays inside the source.
pub proof fn lemma_token_at(s: Seq<char>, p: int)
    requires
        0 <= p < s.len(),
    ensures
        p < token_at(s, p).1 <= s.len(),
{
    if p + 2 <= s.len() {
        lemma_line_end(s, p + 2);
        lemma_block_comment_end(s, p + 2);
        lemma_quoted_end(s, p + 1, '"');
    }
    if p + 3 <= s.len() {
        lemma_text_block_end(s, p + 3);
    }
    lemma_quoted_end(s, p + 1, '"');
    lemma_quoted_end(s, p + 1, '\'');
    lemma_whitespace_end(s, p + 1);
    lemma_word_end(s, p + 1);
}

/// The tokens of `s` from position `p` on.
pub open spec fn spec_lex_from(s: Seq<char>, p: int) -> Seq<Token>
    decreases s.len() - p,
    when 0 <= p
{
    if p >= s.len() {
        Seq::empty()
    } else {
        let (kind, end) = token_at(s, p);
        if p < end <= s.len() {
            seq![Token { kind, start: p as usize, end: end as usize }] + spec_lex_from(s, end)
        } else {
            Seq::empty()
        }
    }
}

/// The tokens of `s`.
pub open spec fn spec_lex(s: Seq<char>) -> Seq<Token> {
    spec_lex_from(s, 0)
}

/// Token `k` starts where token `k - 1` ends.
pub open spec fn tokens_meet(toks: Seq<Token>, k: int) -> bool {
    toks[k].start == toks[k - 1].end
}

/// Tokens that lie within `0..len`, each non-empty, each starting where the
/// previous one ended, the first at `from` and the last ending at `len`.
pub open spec fn tokens_tile(toks: Seq<Token>, from: int, len: int) -> bool {
    &&& forall|k: int| 0 <= k < toks.len() ==> (#[trigger] toks[k]).start < toks[k].end
    &&& forall|k: int| 0 <= k < toks.len() ==> (#[trigger] toks[k]).end <= len
    &&& forall|k: int| 0 < k < toks.len() ==> #[trigger] tokens_meet(toks, k)
    &&& toks.len() > 0 ==> toks[0].start == from
    &&& toks.len() > 0 ==> toks.last().end == len
    &&& toks.len() == 0 ==> from == len
}

proof fn lemma_tile_start(toks: Seq<Token>, from: int, len: int, k: int)
    requires
        tokens_tile(toks, from, len),
        0 <= k < toks.len(),
    ensures
        toks[k].start >= from + k,
    decreases k,
{
    if k > 0 {
        lemma_tile_start(toks, from, len, k - 1);
        assert(tokens_meet(toks, k));
    }
}

/// A tiling has at most as many tokens as characters.
pub proof fn lemma_tile_count(toks: Seq<Token>, from: int, len: int)
    requires
        tokens_tile(toks, from, len),
    ensures
        toks.len() <= len - from,
{
    if toks.len() > 0 {
        lemma_tile_start(toks, from, len, toks.len() - 1);
        assert(toks[toks.len() - 1].start < toks[toks.len() - 1].end);
    }
}

/// Putting a token in front of a tiling that starts where it ends gives a
/// tiling that starts where the token starts.
proof fn lemma_tile_cons(t: Token, rest: Seq<Token>, len: int)
    requires
        t.start < t.end,
        tokens_tile(rest, t.end as int, len),
    ensures
        tokens_tile(seq![t] + rest, t.start as int, len),
{
    let all = seq![t] + rest;
    assert forall|k: int| 0 < k < all.len() implies #[trigger] tokens_meet(all, k) by {
        assert(all[k] == rest[k - 1]);
        if k > 1 {
            assert(all[k - 1] == rest[k - 2]);
            assert(tokens_meet(rest, k - 1));
        }
    }
    assert forall|k: int| 0 <= k < all.len() implies (#[trigger] all[k]).end <= len by {
        if k > 0 {
            assert(all[k] == rest[k - 1]);
        } else if rest.len() == 0 {
        } else {
            assert(rest[0].start < rest[0].end);
        }
    }
    assert forall|k: int| 0 <= k < all.len() implies (#[trigger] all[k]).start < all[k].end by {
        if k > 0 {
            assert(all[k] == rest[k - 1]);
        }
    }
}

/// Lexing loses nothing: the tokens of `s` tile it from its first character
/// to its last.
pub proof fn lemma_lex_partitions(s: Seq<char>, p: int)
    requires
        0 <= p <= s.len(),
        s.len() <= usize::MAX,
    ensures
        tokens_tile(spec_lex_from(s, p), p, s.len() as int),
    decreases s.len() - p,
{
    if p < s.len() {
        lemma_token_at(s, p);
        let end = token_at(s, p).1;
        lemma_lex_partitions(s, end);
        let t = Token { kind: token_at(s, p).0, start: p as usize, end: end as usize };
        assert(spec_lex_from(s, p) == seq![t] + spec_lex_from(s, end));
        lemma_tile_cons(t, spec_lex_from(s, end), s.len() as int);
    }
}

fn scan_line_end(s: &Vec<char>, q: usize) -> (r: usize)
    requires
        q <= s@.len(),
    ensures
        r == line_end(s@, q as int),
{
    let mut i = q;
    while i < s.len()
        invariant
            q <= i <= s@.len(),
            line_end(s@, q as int) == line_end(s@, i as int),
        decreases s@.len() - i,
    {
        if s[i] == '\n' {
            return i;
        }
        i = i + 1;
    }
    i
}

fn scan_block_comment_end(s: &Vec<char>, q: usize) -> (r: usize)
    requires
        q <= s@.len(),
    ensures
        r == block_comment_end(s@, q as int),
{
    let mut i = q;
    while i < s.len()
        invariant
            q <= i <= s@.len(),
            block_comment_end(s@, q as int) == block_comment_end(s@, i as int),
        decreases s@.len() - i,
    {
        if s[i] == '*' && i + 1 < s.len() && s[i + 1] == '/' {
            return i + 2;
        }
        i = i + 1;
    }
    i
}

/// Reads the rest of a text block (`"""` … `"""`) whose body starts at `q`.
fn read_text_block_literal(s: &Vec<char>, q: usize) -> (r: usize)
    requires
        q <= s@.len(),
    ensures
        r == text_block_end(s@, q as int),
{
    let mut i = q;
    while i < s.len()
        invariant
            q <= i <= s@.len(),
            text_block_end(s@, q as int) == text_block_end(s@, i as int),
        decreases s@.len() - i,
    {
        if s[i] == '"' && s.len() - i > 2 && s[i + 1] == '"' && s[i + 2] == '"' {
            return i + 3;
        }
        i = i + 1;
    }
    i
}

/// Reads the rest of a quoted literal whose body starts at `q`, honouring
/// backslash escapes.
fn read_quoted_literal(s: &Vec<char>, q: usize, quote: char) -> (r: usize)
    requires
        q <= s@.len(),
    ensures
        r == quoted_end(s@, q as int, quote),
{
    let mut i = q;
    while i < s.len()
        invariant
            q <= i <= s@.len(),
            quoted_end(s@, q as int, quote) == quoted_end(s@, i as int, quote),
        decreases s@.len() - i,
    {
        if s[i] == '\\' {
            if i + 1 < s.len() {
                i = i + 2;
            } else {
                return s.len();
            }
        } else if s[i] == quote {
            return i + 1;
        } else {
            i = i + 1;
        }
    }
    s.len()
}

fn scan_whitespace_end(s: &Vec<char>, q: usize) -> (r: usize)
    requires
        q <= s@.len(),
    ensures
        r == whitespace_end(s@, q as int),
{
    let mut i = q;
    while i < s.len()
        invariant
            q <= i <= s@.len(),
            whitespace_end(s@, q as int) == whitespace_end(s@, i as int),
        decreases s@.len() - i,
    {
        if s[i] == '\n' || !is_whitespace(s[i]) {
            return i;
        }
        i = i + 1;
    }
    i
}

fn scan_word_end(s: &Vec<char>, q: usize) -> (r: usize)
    requires
        q <= s@.len(),
    ensures
        r == word_end(s@, q as int),
{
    let mut i = q;
    while i < s.len()
        invariant
            q <= i <= s@.len(),
            word_end(s@, q as int) == word_end(s@, i as int),
        decreases s@.len() - i,
    {
        if !is_word_char(s[i]) {
            return i;
        }
        i = i + 1;
    }
    i
}

/// The token starting at `p`.
fn next_token(s: &Vec<char>, p: usize) -> (r: (TokenKind, usize))
    requires
        p < s@.len(),
    ensures
        r.0 == token_at(s@, p as int).0,
        r.1 == token_at(s@, p as int).1,
{
    let c = s[p];
    let n = s.len();
    if c == '\n' {
        (TokenKind::Newline, p + 1)
    } else if c == '/' && p + 1 < n && s[p + 1] == '/' {
        (TokenKind::LineComment, scan_line_end(s, p + 2))
    } else if c == '/' && p + 1 < n && s[p + 1] == '*' {
        (TokenKind::BlockComment, scan_block_comment_end(s, p + 2))
    } else if c == '"' && n - p > 2 && s[p + 1] == '"' && s[p + 2] == '"' {
        (TokenKind::StringLiteral, read_text_block_literal(s, p + 3))
    } else if c == '"' {
        (TokenKind::StringLiteral, read_quoted_literal(s, p + 1, '"'))
    } else if c == '\'' {
        (TokenKind::CharLiteral, read_quoted_literal(s, p + 1, '\''))
    } else if is_whitespace(c) {
        (TokenKind::Whitespace, scan_whitespace_end(s, p + 1))
    } else if is_word_char(c) {
        (TokenKind::Word, scan_word_end(s, p + 1))
    } else {
        (TokenKind::Symbol, p + 1)
    }
}

/// Tokens of a character sequence.
pub fn lex_chars(source: &Vec<char>) -> (tokens: Vec<Token>)
    ensures
        tokens@ == spec_lex(source@),
        tokens_tile(tokens@, 0, source@.len() as int),
{
    let mut tokens: Vec<Token> = Vec::new();
    let mut p: usize = 0;
    while p < source.len()
        invariant
            p <= source@.len(),
            spec_lex(source@) == tokens@ + spec_lex_from(source@, p as int),
        decreases source@.len() - p,
    {
        proof {
            lemma_token_at(source@, p as int);
        }
        let (kind, end) = next_token(source, p);
        let t = Token { kind, start: p, end };
        let ghost before = tokens@;
        tokens.push(t);
        assert(spec_lex_from(source@, p as int) == seq![t] + spec_lex_from(source@, end as int));
        assert(before + (seq![t] + spec_lex_from(source@, end as int)) =~= tokens@ + spec_lex_from(
            source@,
            end as int,
        ));
        p = end;
    }
    assert(tokens@ =~= spec_lex(source@));
    proof {
        lemma_lex_partitions(source@, 0);
    }
    tokens
}

/// Splits Java source into tokens.
pub fn lex(source: &str) -> (lexed: LexedSource)
    ensures
        lexed.source@ == source@,
        lexed.tokens@ == spec_lex(source@),
        tokens_tile(lexed.tokens@, 0, source@.len() as int),
{
    let chars = chars_of(source);
    let tokens = lex_chars(&chars);
    LexedSource { source: chars, tokens }
}

} // verus!
