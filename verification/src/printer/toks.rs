//! The printer's view of a file: the tokens that are not whitespace, each
//! with its text, and the source they came from.
use vstd::prelude::*;
use crate::lexer::{Token, TokenKind};
use crate::text::{sub_chars, text_is, contains_char};

verus! {

pub struct Toks {
    pub toks: Vec<Token>,
    pub texts: Vec<Vec<char>>,
    pub source: Vec<char>,
}

impl Toks {
    pub open spec fn len(&self) -> nat {
        self.toks@.len()
    }

    /// Tokens in source order, each with its text.
    pub open spec fn wf(&self) -> bool {
        &&& self.toks@.len() == self.texts@.len()
        &&& self.source@.len() <= usize::MAX
        &&& self.toks@.len() <= usize::MAX / 128
        &&& forall|k: int|
            0 <= k < self.toks@.len() ==> (#[trigger] self.toks@[k]).start <= self.toks@[k].end
                <= self.source@.len()
        &&& forall|j: int, k: int|
            0 <= j < k < self.toks@.len() ==> (#[trigger] self.toks@[j]).end <= (#[trigger] self.toks@[k]).start
        &&& forall|k: int|
            0 <= k < self.toks@.len() ==> (#[trigger] self.texts@[k])@ == self.source@.subrange(
                self.toks@[k].start as int,
                self.toks@[k].end as int,
            )
    }

    /// No token is whitespace or a line break.
    pub open spec fn no_layout_tokens(&self) -> bool {
        forall|k: int|
            0 <= k < self.toks@.len() ==> (#[trigger] self.toks@[k]).kind != TokenKind::Whitespace
                && self.toks@[k].kind != TokenKind::Newline
    }

    /// The texts of tokens `a..b`, one after the other.
    pub open spec fn texts_from(&self, a: int, b: int) -> Seq<char>
        decreases b - a,
    {
        if b <= a {
            Seq::empty()
        } else {
            self.texts_from(a, b - 1) + self.texts@[b - 1]@
        }
    }

/// What token `k` contributes to the printed text: a block comment with an
    /// indentation in `ns` is normalized at that indentation; any other token
    /// gives its text.
    pub open spec fn piece(&self, ns: Seq<Option<nat>>, k: int) -> Seq<char> {
        if 0 <= k < ns.len() && ns[k] is Some && self.toks@[k].kind == TokenKind::BlockComment {
            crate::printer::output::spec_normalize_block_comment(self.texts@[k]@, ns[k].unwrap())
        } else {
            self.texts@[k]@
        }
    }

    /// The contributions of tokens `a..b`, one after the other.
    pub open spec fn pieces_from(&self, ns: Seq<Option<nat>>, a: int, b: int) -> Seq<char>
        decreases b - a,
    {
        if b <= a {
            Seq::empty()
        } else {
            self.pieces_from(ns, a, b - 1) + self.piece(ns, b - 1)
        }
    }

        /// End of the token before `index` (0 before the first).
    pub open spec fn end_before(&self, index: int) -> int {
        if index <= 0 {
            0
        } else {
            self.toks@[index - 1].end as int
        }
    }

    /// Kind of token `i`.
    pub fn kind(&self, i: usize) -> (r: TokenKind)
        requires
            self.wf(),
            i < self.len(),
        ensures
            r == self.toks@[i as int].kind,
    {
        self.toks[i].kind
    }

    /// The text of token `i` equals `s`.
    pub fn is(&self, i: usize, s: &str) -> (r: bool)
        requires
            self.wf(),
            i < self.len(),
        ensures
            r == (self.texts@[i as int]@ == s@),
    {
        text_is(&self.texts[i], s)
    }

    /// A copy of the text of token `i`.
    pub fn text(&self, i: usize) -> (r: Vec<char>)
        requires
            self.wf(),
            i < self.len(),
        ensures
            r@ == self.texts@[i as int]@,
    {
        crate::text::copy_chars(&self.texts[i])
    }

    /// The token count.
    pub fn count(&self) -> (r: usize)
        ensures
            r == self.len(),
    {
        self.toks.len()
    }

    /// Token `j` starts right where token `i` ends.
    pub fn touching(&self, i: usize, j: usize) -> (r: bool)
        requires
            self.wf(),
            i < self.len(),
            j < self.len(),
        ensures
            r == (self.toks@[i as int].end == self.toks@[j as int].start),
    {
        self.toks[i].end == self.toks[j].start
    }

    /// Length of token `i` in characters.
    pub fn width(&self, i: usize) -> (r: usize)
        requires
            self.wf(),
            i < self.len(),
        ensures
            r == self.toks@[i as int].end - self.toks@[i as int].start,
    {
        self.toks[i].end - self.toks[i].start
    }

    /// Source characters between the end of token `i` and the start of token
    /// `j` contain a newline.
    pub fn gap_has_newline(&self, i: usize, j: usize) -> (r: bool)
        requires
            self.wf(),
            i < j < self.len(),
        ensures
            r == self.source@.subrange(
                self.toks@[i as int].end as int,
                self.toks@[j as int].start as int,
            ).contains('\n'),
    {
        let a = self.toks[i].end;
        let b = self.toks[j].start;
        assert(self.toks@[i as int].end <= self.toks@[j as int].start);
        let gap = sub_chars(&self.source, a, b);
        contains_char(&gap, '\n')
    }

    /// Source characters between the end of token `i` and the start of token
    /// `j` contain at least two newlines.
    pub fn gap_has_blank_line(&self, i: usize, j: usize) -> (r: bool)
        requires
            self.wf(),
            i < j < self.len(),
        ensures
            r == (count_newlines(
                self.source@.subrange(
                    self.toks@[i as int].end as int,
                    self.toks@[j as int].start as int,
                ),
            ) >= 2),
    {
        let a = self.toks[i].end;
        let b = self.toks[j].start;
        assert(self.toks@[i as int].end <= self.toks@[j as int].start);
        let gap = sub_chars(&self.source, a, b);
        let mut n: usize = 0;
        let mut k: usize = 0;
        while k < gap.len()
            invariant
                k <= gap@.len(),
                n == count_newlines(gap@.subrange(0, k as int)),
                n <= k,
            decreases gap@.len() - k,
        {
            assert(gap@.subrange(0, k + 1).drop_last() =~= gap@.subrange(0, k as int));
            if gap[k] == '\n' {
                n = n + 1;
            }
            k = k + 1;
        }
        assert(gap@.subrange(0, k as int) =~= gap@);
        n >= 2
    }
}

/// Stepping past token `index` (and perhaps some after it) moves the end of
/// the previous token on by at least the width of token `index`.
pub proof fn lemma_end_before_step(tk: &Toks, index: int, next: int)
    requires
        tk.wf(),
        0 <= index < next <= tk.len(),
    ensures
        tk.end_before(index) + (tk.toks@[index].end - tk.toks@[index].start) <= tk.end_before(next),
        tk.end_before(next) <= tk.source@.len(),
{
    if index > 0 {
        assert(tk.toks@[index - 1].end <= tk.toks@[index].start);
    }
    if next - 1 > index {
        assert(tk.toks@[index].end <= tk.toks@[next - 1].start);
    }
    assert(tk.toks@[next - 1].start <= tk.toks@[next - 1].end);
}

/// The end of the previous token lies inside the source.
pub proof fn lemma_end_before_bound(tk: &Toks, index: int)
    requires
        tk.wf(),
        0 <= index <= tk.len(),
    ensures
        0 <= tk.end_before(index) <= tk.source@.len(),
{
    if index > 0 {
        assert(tk.toks@[index - 1].start <= tk.toks@[index - 1].end);
    }
}

/// The number of newline characters.
pub open spec fn count_newlines(s: Seq<char>) -> nat
    decreases s.len(),
{
    if s.len() == 0 {
        0
    } else {
        count_newlines(s.drop_last()) + if s.last() == '\n' {
            1nat
        } else {
            0nat
        }
    }
}

/// Whether a token takes part in printing: everything but whitespace and
/// newlines.
pub open spec fn is_meaningful(t: Token) -> bool {
    t.kind != TokenKind::Whitespace && t.kind != TokenKind::Newline
}

/// The meaningful tokens of a token list, in order.
pub open spec fn meaningful(toks: Seq<Token>) -> Seq<Token> {
    toks.filter(|t: Token| is_meaningful(t))
}

/// The printer's view of the tokens: the meaningful ones, with their texts.
pub fn collect_meaningful_tokens(source: &Vec<char>, tokens: &Vec<Token>) -> (r: Toks)
    requires
        crate::lexer::tokens_tile(tokens@, 0, source@.len() as int),
        source@.len() <= usize::MAX,
        tokens@.len() <= usize::MAX / 128,
    ensures
        r.wf(),
        r.toks@ == meaningful(tokens@),
        r.source@ == source@,
{
    let mut toks: Vec<Token> = Vec::new();
    let mut texts: Vec<Vec<char>> = Vec::new();
    let mut i: usize = 0;
    while i < tokens.len()
        invariant
            crate::lexer::tokens_tile(tokens@, 0, source@.len() as int),
            i <= tokens@.len(),
            toks@ == meaningful(tokens@.subrange(0, i as int)),
            toks@.len() == texts@.len(),
            toks@.len() <= i,
            forall|k: int|
                0 <= k < toks@.len() ==> (#[trigger] toks@[k]).start <= toks@[k].end
                    <= source@.len(),
            forall|j: int, k: int|
                0 <= j < k < toks@.len() ==> (#[trigger] toks@[j]).end <= (#[trigger] toks@[k]).start,
            forall|k: int|
                0 <= k < toks@.len() ==> (#[trigger] texts@[k])@ == source@.subrange(
                    toks@[k].start as int,
                    toks@[k].end as int,
                ),
            i < tokens@.len() && toks@.len() > 0 ==> toks@.last().end <= tokens@[i as int].start,
        decreases tokens@.len() - i,
    {
        let t = tokens[i];
        assert(tokens@[i as int].start < tokens@[i as int].end);
        assert(tokens@[i as int].end <= source@.len());
        if i + 1 < tokens.len() {
            assert(crate::lexer::tokens_meet(tokens@, i + 1));
        }
        assert(tokens@.subrange(0, i + 1).drop_last() =~= tokens@.subrange(0, i as int));
        assert(tokens@.subrange(0, i + 1).last() == t);
        proof {
            reveal(Seq::filter);
        }
        if t.kind != TokenKind::Whitespace && t.kind != TokenKind::Newline {
            let txt = sub_chars(source, t.start, t.end);
            toks.push(t);
            texts.push(txt);
        }
        i = i + 1;
    }
    assert(tokens@.subrange(0, i as int) =~= tokens@);
    Toks { toks, texts, source: crate::text::copy_chars(source) }
}

/// The texts of tokens `a..b` and then `b..c` are the texts of `a..c`.
pub proof fn lemma_texts_from_split(tk: &Toks, a: int, b: int, c: int)
    requires
        a <= b <= c,
    ensures
        tk.texts_from(a, b) + tk.texts_from(b, c) == tk.texts_from(a, c),
    decreases c - b,
{
    if b == c {
        assert(tk.texts_from(a, b) + Seq::<char>::empty() =~= tk.texts_from(a, b));
    } else {
        lemma_texts_from_split(tk, a, b, c - 1);
        assert(tk.texts_from(a, b) + (tk.texts_from(b, c - 1) + tk.texts@[c - 1]@) =~= (
        tk.texts_from(a, b) + tk.texts_from(b, c - 1)) + tk.texts@[c - 1]@);
    }
}

/// One token's texts.
pub proof fn lemma_texts_from_one(tk: &Toks, a: int)
    ensures
        tk.texts_from(a, a + 1) == tk.texts@[a]@,
{
    assert(tk.texts_from(a, a) == Seq::<char>::empty());
    assert(tk.texts_from(a, a + 1) == tk.texts_from(a, a) + tk.texts@[a]@);
    assert(Seq::<char>::empty() + tk.texts@[a]@ =~= tk.texts@[a]@);
}

/// The source texts of the first `n` tokens, one after the other.
pub open spec fn tokens_text(source: Seq<char>, toks: Seq<Token>, n: int) -> Seq<char>
    decreases n,
{
    if n <= 0 {
        Seq::empty()
    } else {
        tokens_text(source, toks, n - 1) + source.subrange(
            toks[n - 1].start as int,
            toks[n - 1].end as int,
        )
    }
}

/// What the first `n` tokens contribute to the printed text, a block comment
/// with an indentation in `ns` being normalized at that indentation.
pub open spec fn tokens_pieces(source: Seq<char>, toks: Seq<Token>, ns: Seq<Option<nat>>, n: int) -> Seq<
    char,
>
    decreases n,
{
    if n <= 0 {
        Seq::empty()
    } else {
        let k = n - 1;
        let text = source.subrange(toks[k].start as int, toks[k].end as int);
        tokens_pieces(source, toks, ns, k) + if 0 <= k < ns.len() && ns[k] is Some && toks[k].kind
            == TokenKind::BlockComment {
            crate::printer::output::spec_normalize_block_comment(text, ns[k].unwrap())
        } else {
            text
        }
    }
}

/// The printer's contributions are those of its tokens in the source.
pub proof fn lemma_pieces_tokens(tk: &Toks, ns: Seq<Option<nat>>, n: int)
    requires
        tk.wf(),
        0 <= n <= tk.len(),
    ensures
        tk.pieces_from(ns, 0, n) == tokens_pieces(tk.source@, tk.toks@, ns, n),
    decreases n,
{
    if n > 0 {
        lemma_pieces_tokens(tk, ns, n - 1);
    }
}

/// The texts the printer holds are the source texts of its tokens.
pub proof fn lemma_texts_from_tokens(tk: &Toks, n: int)
    requires
        tk.wf(),
        0 <= n <= tk.len(),
    ensures
        tk.texts_from(0, n) == tokens_text(tk.source@, tk.toks@, n),
    decreases n,
{
    if n > 0 {
        lemma_texts_from_tokens(tk, n - 1);
    }
}

/// Meaningful tokens are neither whitespace nor line breaks.
pub proof fn lemma_meaningful_no_layout(toks: Seq<Token>)
    ensures
        forall|k: int|
            0 <= k < meaningful(toks).len() ==> is_meaningful(#[trigger] meaningful(toks)[k]),
{
    assert forall|k: int| 0 <= k < meaningful(toks).len() implies is_meaningful(
        #[trigger] meaningful(toks)[k],
    ) by {
        toks.lemma_filter_pred(|t: Token| is_meaningful(t), k);
    }
}

/// Tokens that are given no indentation contribute their texts.
pub proof fn lemma_pieces_raw(tk: &Toks, ns: Seq<Option<nat>>, a: int, b: int)
    requires
        a <= b,
        forall|k: int| a <= k < b && 0 <= k < ns.len() ==> (#[trigger] ns[k]) is None,
    ensures
        tk.pieces_from(ns, a, b) == tk.texts_from(a, b),
    decreases b - a,
{
    if b > a {
        lemma_pieces_raw(tk, ns, a, b - 1);
        if 0 <= b - 1 < ns.len() {
            assert(ns[b - 1] is None);
        }
    }
}

/// The contributions of `a..b` and then `b..c` are those of `a..c`.
pub proof fn lemma_pieces_split(tk: &Toks, ns: Seq<Option<nat>>, a: int, b: int, c: int)
    requires
        a <= b <= c,
    ensures
        tk.pieces_from(ns, a, b) + tk.pieces_from(ns, b, c) == tk.pieces_from(ns, a, c),
    decreases c - b,
{
    if b == c {
        assert(tk.pieces_from(ns, a, b) + Seq::<char>::empty() =~= tk.pieces_from(ns, a, b));
    } else {
        lemma_pieces_split(tk, ns, a, b, c - 1);
        assert(tk.pieces_from(ns, a, b) + (tk.pieces_from(ns, b, c - 1) + tk.piece(ns, c - 1)) =~= (
        tk.pieces_from(ns, a, b) + tk.pieces_from(ns, b, c - 1)) + tk.piece(ns, c - 1));
    }
}

/// Giving token `i` an indentation leaves the contributions before it.
pub proof fn lemma_pieces_update(tk: &Toks, ns: Seq<Option<nat>>, i: int, x: Option<nat>, a: int, b: int)
    requires
        0 <= i < ns.len(),
        a <= b <= i,
    ensures
        tk.pieces_from(ns.update(i, x), a, b) == tk.pieces_from(ns, a, b),
    decreases b - a,
{
    if b > a {
        lemma_pieces_update(tk, ns, i, x, a, b - 1);
        assert(tk.piece(ns.update(i, x), b - 1) == tk.piece(ns, b - 1));
    }
}

/// One token's contribution.
pub proof fn lemma_pieces_one(tk: &Toks, ns: Seq<Option<nat>>, a: int)
    ensures
        tk.pieces_from(ns, a, a + 1) == tk.piece(ns, a),
{
    assert(tk.pieces_from(ns, a, a) == Seq::<char>::empty());
    assert(Seq::<char>::empty() + tk.piece(ns, a) =~= tk.piece(ns, a));
}

} // verus!
