//! The printing loop: walks the meaningful tokens once, keeping track of
//! blocks, parentheses, annotations and continuation indents, and writes the
//! formatted text.
use vstd::prelude::*;
use crate::lexer::{Token, TokenKind};
use crate::printer::analysis::{
    block_lambda_from, closes_type_args, inline_brace_from, exponent_sign_context, generic_open_angle_at, space_needed, unary_context_text, chain_result, chain_scan, chain_start, is_type_keyword, keep_inline_annotation, method_member_from, module_directive_of,
    next_directive_word, top_level_directive_of, rhs_breaks_at, active_indent, call_arguments_break_metrics, chain_continuation_metrics, current_output_line,
    is_exponent_sign_context, is_explicit_type_argument_call, is_generic_open_angle,
    is_inline_initializer_brace, is_label_colon_context, is_switch_label,
    is_tight_after_generic_close, is_type_declaration_keyword, is_unary_prefix_context,
    is_word_like_text, is_wrappable_invocation_open_paren, module_directive_from_word,
    needs_space_before, needs_space_before_open_paren, next_dotted_member_call_breaks,
    next_member_looks_like_method, next_module_directive, next_top_level_directive,
    should_break_annotation_arguments, should_break_assignment_rhs,
    should_break_before_chained_dot, should_keep_inline_annotation,
    should_start_annotation_inline, starts_block_lambda_rhs, top_level_directive_from_word,
};
use crate::printer::frames::{BlockFrame, BlockKind, ModuleDirective, TopLevelDirective};
use crate::printer::output::{
    visible, collapse_newlines, lemma_visible_concat, lemma_visible_layout, lemma_visible_push_layout,
    lemma_visible_collapse, lemma_visible_line_comment, spec_normalize_block_comment,
    spec_normalize_line_comment, ensure_space, no_triple_newline, normalize_block_comment_text, normalize_line_comment_text,
    trim_redundant_blank_lines, write_with_indent,
};
use crate::printer::symbols::{Sym, classify_symbol, lemma_symbol_text, next_symbol_text, next_text_spec, opt_is, opt_view, read_symbol, sym_of, sym_text, symbol_at};
use crate::ir::FormatIr;
use crate::printer::toks::{Toks, count_newlines, lemma_pieces_one, lemma_pieces_raw, lemma_pieces_split, lemma_pieces_update, collect_meaningful_tokens, is_meaningful, lemma_meaningful_no_layout, lemma_texts_from_one, lemma_texts_from_split, lemma_pieces_tokens, lemma_texts_from_tokens, meaningful, tokens_pieces, tokens_text};
use crate::text::{string_of, ends_with_char, indent_text, seq_starts_with, starts_with, text_is, vec_of};

verus! {

/// The text written so far, and whether the next character starts a line.
pub struct Sink {
    pub out: Vec<char>,
    pub at_line_start: bool,
}

impl Sink {
    /// Writes text, indented by `indent` levels when it starts a line.
    pub fn put(&mut self, indent: usize, text: &[char])
        requires
            indent <= usize::MAX / 4,
        ensures
            final(self).out@ == old(self).out@ + (if old(self).at_line_start {
                indent_text(indent as nat)
            } else {
                Seq::empty()
            }) + text@,
            !final(self).at_line_start,
            visible(final(self).out@) == visible(old(self).out@) + visible(text@),
    {
        let ghost before = self.out@;
        let ghost lead = if self.at_line_start {
            indent_text(indent as nat)
        } else {
            Seq::empty()
        };
        write_with_indent(&mut self.out, &mut self.at_line_start, indent, text);
        proof {
            lemma_visible_layout(lead);
            lemma_visible_concat(before, lead);
            lemma_visible_concat(before + lead, text@);
            assert(visible(before) + Seq::<char>::empty() =~= visible(before));
        }
    }

    /// Writes a string slice, indented by `indent` levels when it starts a
    /// line.
    pub fn put_str(&mut self, indent: usize, text: &str)
        requires
            indent <= usize::MAX / 4,
        ensures
            final(self).out@ == old(self).out@ + (if old(self).at_line_start {
                indent_text(indent as nat)
            } else {
                Seq::empty()
            }) + text@,
            !final(self).at_line_start,
            visible(final(self).out@) == visible(old(self).out@) + visible(text@),
    {
        let t = vec_of(text);
        self.put(indent, &t);
    }

    /// Ends the line.
    pub fn newline(&mut self)
        ensures
            final(self).out@ == old(self).out@.push('\n'),
            final(self).at_line_start,
            visible(final(self).out@) == visible(old(self).out@),
    {
        proof {
            lemma_visible_push_layout(self.out@, '\n');
        }
        self.out.push('\n');
        self.at_line_start = true;
    }

    /// Adds a space where one is needed: not at the start of a line, and not
    /// after a space, a newline or nothing.
    pub fn space(&mut self)
        ensures
            final(self).out@ == if !old(self).at_line_start && old(self).out@.len() > 0 && old(
                self,
            ).out@.last() != ' ' && old(self).out@.last() != '\n' {
                old(self).out@.push(' ')
            } else {
                old(self).out@
            },
            final(self).at_line_start == old(self).at_line_start,
            visible(final(self).out@) == visible(old(self).out@),
    {
        proof {
            lemma_visible_push_layout(self.out@, ' ');
        }
        ensure_space(&mut self.out, self.at_line_start);
    }

    /// Adds a space or a newline without changing whether a line starts.
    pub fn push_layout(&mut self, c: char)
        requires
            c == ' ' || c == '\n',
        ensures
            final(self).out@ == old(self).out@.push(c),
            final(self).at_line_start == old(self).at_line_start,
            visible(final(self).out@) == visible(old(self).out@),
    {
        proof {
            lemma_visible_push_layout(self.out@, c);
        }
        self.out.push(c);
    }

    /// What follows a `}`: nothing before `;`, `)` or `,` or after an inline
    /// block; a space before `else`, `catch`, `finally` or `while`; else,
    /// before a further token, a line break, and a blank line after a member
    /// of a type body unless a `}` follows.
    pub fn after_close_brace(
        &mut self,
        next_text: &Option<Vec<char>>,
        inline: bool,
        in_type_body: bool,
    )
        ensures
            final(self).out@ == old(self).out@ + close_brace_tail(
                opt_view(*next_text),
                inline,
                in_type_body,
            ),
            final(self).at_line_start == (old(self).at_line_start || close_brace_breaks(
                opt_view(*next_text),
                inline,
            )),
            visible(final(self).out@) == visible(old(self).out@),
    {
        let ghost out0 = self.out@;
        if opt_is(next_text, ";") || opt_is(next_text, ")") || opt_is(next_text, ",") {
        } else if inline {
        } else if opt_is(next_text, "else") || opt_is(next_text, "catch") || opt_is(
            next_text,
            "finally",
        ) || opt_is(next_text, "while") {
            self.push_layout(' ');
        } else if next_text.is_some() {
            self.newline();
            if in_type_body && !opt_is(next_text, "}") {
                self.push_layout('\n');
            }
        }
        proof {
            let t = close_brace_tail(opt_view(*next_text), inline, in_type_body);
            assert(self.out@ =~= out0 + t);
        }
    }

    /// Takes back the newline that ends the text, continuing its line.
    pub fn drop_newline(&mut self)
        requires
            old(self).out@.len() > 0,
            old(self).out@.last() == '\n',
        ensures
            !final(self).at_line_start,
            visible(final(self).out@) == visible(old(self).out@),
    {
        let ghost before = self.out@;
        self.out.pop();
        self.at_line_start = false;
        proof {
            assert(self.out@.push('\n') =~= before);
            lemma_visible_push_layout(self.out@, '\n');
        }
    }

    /// Writes text as it is, at the current position.
    pub fn push_text(&mut self, text: &[char])
        ensures
            final(self).out@ == old(self).out@ + text@,
            !final(self).at_line_start,
            visible(final(self).out@) == visible(old(self).out@) + visible(text@),
    {
        proof {
            lemma_visible_concat(self.out@, text@);
        }
        crate::text::push_chars(&mut self.out, text);
        self.at_line_start = false;
    }
}

/// Everything the printer remembers between tokens.
pub struct Printer {
    pub i: usize,
    pub indent: usize,
    pub paren_depth: usize,
    pub bracket_depth: usize,
    pub block_stack: Vec<BlockFrame>,
    pub prev_text: Option<Vec<char>>,
    pub prev_kind: Option<TokenKind>,
    pub annotation_active: bool,
    pub annotation_paren_depth: usize,
    pub annotation_brace_depth: usize,
    pub annotation_has_args: bool,
    pub annotation_name: Option<Vec<char>>,
    pub annotation_started_line_start: bool,
    pub annotation_inline_run_active: bool,
    pub annotation_multiline_args_active: bool,
    pub annotation_multiline_args_paren_depth: usize,
    pub annotation_multiline_base_indent: usize,
    pub pending_switch_block: bool,
    pub pending_type_block: bool,
    pub pending_enum_block: bool,
    pub pending_module_block: bool,
    pub pending_non_sealed: bool,
    pub lambda_continuation_active: bool,
    pub lambda_continuation_base_indent: usize,
    pub lambda_continuation_base_block_depth: usize,
    pub try_resource_paren_depth: usize,
    pub try_resource_continuation_active: bool,
    pub try_resource_continuation_base_indent: usize,
    pub module_continuation_active: bool,
    pub module_continuation_base_indent: usize,
    pub generic_depth: usize,
    pub ternary_depth: usize,
    pub pending_top_level_directive: Option<TopLevelDirective>,
    pub pending_module_directive: Option<ModuleDirective>,
    pub call_args_continuation_active: bool,
    pub call_args_continuation_paren_depth: usize,
    pub call_args_continuation_base_indent: usize,
    pub call_args_comment_mode: bool,
    pub call_args_vertical_mode: bool,
    pub chain_continuation_active: bool,
    pub chain_continuation_paren_depth: usize,
    pub chain_continuation_bracket_depth: usize,
    pub chain_continuation_dot_count: usize,
    pub chain_keep_leading_dots: usize,
    pub switch_arrow_comment_indent_active: bool,
}

/// The largest value a counter may hold after `i` tokens: no token raises an
/// indentation or a depth by more than 8. With at most `usize::MAX / 128`
/// tokens (see `lemma_cap`) these stay far enough inside `usize` that an
/// indentation written as spaces, and the text that holds it, fit as well.
pub open spec fn cap(i: int) -> int {
    8 * i + 16
}

/// A printer that has consumed at most all tokens keeps its counters well
/// inside the machine's range.
pub proof fn lemma_cap(i: int)
    requires
        0 <= i <= usize::MAX / 128,
    ensures
        cap(i) + 8 <= usize::MAX / 8,
{
    assert(usize::MAX == 0xffff_ffff || usize::MAX == 0xffff_ffff_ffff_ffff);
}


/// Every block comment among `toks` keeps its visible characters when it is
/// normalized, at whatever indentation.
pub open spec fn block_comments_keep_text(source: Seq<char>, toks: Seq<Token>) -> bool {
    forall|k: int, n: nat|
        0 <= k < toks.len() && toks[k].kind == TokenKind::BlockComment ==> #[trigger] visible(
            spec_normalize_block_comment(source.subrange(toks[k].start as int, toks[k].end as int), n),
        ) == visible(source.subrange(toks[k].start as int, toks[k].end as int))
}

/// After a `}`, the next token goes on a new line: there is one, and it is
/// no `;`, `)`, `,`, `else`, `catch`, `finally` or `while`, and the block was
/// not inline.
pub open spec fn close_brace_breaks(next: Option<Seq<char>>, inline: bool) -> bool {
    &&& next matches Some(t)
    &&& !(t == ";"@ || t == ")"@ || t == ","@)
    &&& !inline
    &&& !(t == "else"@ || t == "catch"@ || t == "finally"@ || t == "while"@)
}

/// The layout after a `}` (see `Sink::after_close_brace`).
pub open spec fn close_brace_tail(next: Option<Seq<char>>, inline: bool, in_type_body: bool) -> Seq<
    char,
> {
    if next matches Some(t) && (t == ";"@ || t == ")"@ || t == ","@) {
        Seq::empty()
    } else if inline {
        Seq::empty()
    } else if next matches Some(t) && (t == "else"@ || t == "catch"@ || t == "finally"@ || t
        == "while"@) {
        seq![' ']
    } else if next is Some {
        seq!['\n'] + newline_if(in_type_body && next != Some("}"@))
    } else {
        Seq::empty()
    }
}

/// The text after a `{` (see `Printer::open_brace`): after a space where
/// one is needed, at the line's indentation, and followed by a line break
/// (and a blank line before the first member of a type body that had one)
/// when the block opened on several lines.
pub open spec fn open_brace_out(
    tk: &Toks,
    p: Printer,
    out: Seq<char>,
    at: bool,
    next: Option<Seq<char>>,
    consumed: int,
) -> Seq<char> {
    let frame = p.opened_frame(tk, next);
    (if space_needed(opt_view(p.prev_text), "{"@, at) {
        spaced(out, at)
    } else {
        out
    }) + lead(at, p.line_indent()) + "{"@ + (if frame.multiline {
        seq!['\n'] + newline_if(
            (frame.kind == BlockKind::TypeBody || frame.kind == BlockKind::EnumBody)
                && Printer::blank_between(tk, p.i as int, p.i + consumed),
        )
    } else {
        Seq::empty()
    })
}

/// The text after a `}` (see `Printer::close_brace`): on a line of its own
/// at the indentation of the block's opening line when the block spanned
/// several lines, followed by the layout `close_brace_tail` gives.
pub open spec fn close_brace_out(p: Printer, out: Seq<char>, at: bool, next: Option<Seq<char>>) -> Seq<
    char,
> {
    let frame = p.closed_frame();
    let stack = p.stack_after_close();
    let indent: int = if frame.multiline && p.indent > 0 {
        p.indent - 1
    } else {
        p.indent as int
    };
    let line = if stack.len() > 0 && stack.last().kind == BlockKind::Switch
        && stack.last().in_switch_case {
        indent + 1
    } else {
        indent
    };
    let in_type_body = stack.len() > 0 && (stack.last().kind == BlockKind::TypeBody
        || stack.last().kind == BlockKind::EnumBody);
    (if frame.multiline && !at {
        out.push('\n')
    } else {
        out
    }) + lead(at || frame.multiline, line) + "}"@ + close_brace_tail(
        next,
        frame.kind == BlockKind::Inline,
        in_type_body,
    )
}

/// The indentation written before text that starts a line: `indent` levels
/// of two spaces at the start of a line, nothing elsewhere.
pub open spec fn lead(at_line_start: bool, indent: int) -> Seq<char> {
    if at_line_start {
        indent_text(indent as nat)
    } else {
        Seq::empty()
    }
}

/// The text after `Sink::space`: a space added unless at the start of a
/// line, after nothing, or after a space or newline.
pub open spec fn spaced(out: Seq<char>, at_line_start: bool) -> Seq<char> {
    if !at_line_start && out.len() > 0 && out.last() != ' ' && out.last() != '\n' {
        out.push(' ')
    } else {
        out
    }
}

/// The text after an operator written tight.
pub open spec fn tight_text(out: Seq<char>, at: bool, indent: int, text: Seq<char>) -> Seq<char> {
    out + lead(at, indent) + text
}

/// The text after an operator written with a space on either side.
pub open spec fn binary_text(out: Seq<char>, at: bool, indent: int, text: Seq<char>) -> Seq<char> {
    (spaced(out, at) + lead(at, indent) + text).push(' ')
}

/// The text after an operator written after a space where one is needed.
pub open spec fn spaced_before_text(
    out: Seq<char>,
    at: bool,
    indent: int,
    prev: Option<Seq<char>>,
    text: Seq<char>,
) -> Seq<char> {
    (if space_needed(prev, text, at) {
        spaced(out, at)
    } else {
        out
    }) + lead(at, indent) + text
}

/// A `+` or `-` is a prefix operator after these texts, or at the start.
pub open spec fn unary_context(prev: Option<Seq<char>>) -> bool {
    match prev {
        None => true,
        Some(t) => unary_context_text(t),
    }
}

/// The text after a `+` or `-`: tight in `non-sealed` and in exponents,
/// after a space where needed as a prefix operator, spaced on both sides as
/// a binary operator.
pub open spec fn plus_minus_text(
    out: Seq<char>,
    at: bool,
    indent: int,
    sym: Sym,
    prev: Option<Seq<char>>,
    next: Option<Seq<char>>,
    text: Seq<char>,
) -> Seq<char> {
    if (sym == Sym::Minus && prev == Some("non"@) && next == Some("sealed"@))
        || exponent_sign_context(prev, next) {
        tight_text(out, at, indent, text)
    } else if unary_context(prev) {
        spaced_before_text(out, at, indent, prev, text)
    } else {
        binary_text(out, at, indent, text)
    }
}

/// `fin` is `w`, or `w` and a line break (after a closing annotation).
pub open spec fn with_optional_break(fin: Seq<char>, w: Seq<char>) -> bool {
    fin == w || fin == w.push('\n')
}

/// The printer's state between two steps: what it remembers, the text
/// written so far, and whether that text is at the start of a line.
pub struct Snap {
    pub p: Printer,
    pub out: Seq<char>,
    pub at: bool,
}

/// The printer's state before the first token: no block open, nothing
/// pending or active, every count zero, and nothing written.
pub open spec fn initial_snap(a: Snap) -> bool {
    &&& a.out.len() == 0
    &&& a.at
    &&& a.p.block_stack@.len() == 0
    &&& a.p == Printer {
        i: 0,
        indent: 0,
        paren_depth: 0,
        bracket_depth: 0,
        block_stack: a.p.block_stack,
        prev_text: None,
        prev_kind: None,
        annotation_active: false,
        annotation_paren_depth: 0,
        annotation_brace_depth: 0,
        annotation_has_args: false,
        annotation_name: None,
        annotation_started_line_start: false,
        annotation_inline_run_active: false,
        annotation_multiline_args_active: false,
        annotation_multiline_args_paren_depth: 0,
        annotation_multiline_base_indent: 0,
        pending_switch_block: false,
        pending_type_block: false,
        pending_enum_block: false,
        pending_module_block: false,
        pending_non_sealed: false,
        lambda_continuation_active: false,
        lambda_continuation_base_indent: 0,
        lambda_continuation_base_block_depth: 0,
        try_resource_paren_depth: 0,
        try_resource_continuation_active: false,
        try_resource_continuation_base_indent: 0,
        module_continuation_active: false,
        module_continuation_base_indent: 0,
        generic_depth: 0,
        ternary_depth: 0,
        pending_top_level_directive: None,
        pending_module_directive: None,
        call_args_continuation_active: false,
        call_args_continuation_paren_depth: 0,
        call_args_continuation_base_indent: 0,
        call_args_comment_mode: false,
        call_args_vertical_mode: false,
        chain_continuation_active: false,
        chain_continuation_paren_depth: 0,
        chain_continuation_bracket_depth: 0,
        chain_continuation_dot_count: 0,
        chain_keep_leading_dots: 0,
        switch_arrow_comment_indent_active: false,
    }
}

/// What printing an operator does (see `Printer::symbol`): it writes the
/// operator, whose tokens' texts are what becomes visible; a generic `<`
/// and the `>` that close type arguments are written tight, other angle
/// brackets spaced; `+` and `-` follow `plus_minus_text`; `!`, `~` and
/// symbols of no other kind are written as prefix operators; assignment
/// operators other than `=`, comparisons, logical, bitwise and shift
/// operators, `->` and `?` get a space on either side; `++`, `--` and `...`
/// are written tight; `,` is written tight and followed by a space or a
/// line break; `)` is written tight, after nothing but the indentation
/// where it starts a line; `;` is written tight, then its line's end; `:`
/// is spaced on either side in a conditional expression, and elsewhere
/// either so or tight and ending a label's line; `{` and `}` follow
/// `open_brace_out` and `close_brace_out`. An annotation that ends may add a
/// line break after the operator. All of this is read off the state `a`
/// before the operator. For the kinds of `simple_symbol` the step fixes the
/// whole state after the operator (`simple_symbol_state`, then the close of
/// an annotation), up to which vector holds the previous token's text, and
/// whether the text ends at the start of a line. For the other kinds it
/// fixes the position, the depth of type arguments and that the operator is
/// the previous token, and leaves the rest (indentation, open blocks,
/// pending flags) unstated.
#[verifier::opaque]
pub open spec fn symbol_step(tk: &Toks, a: Snap, b: Snap) -> bool {
    &&& visible(b.out) == visible(a.out) + visible(tk.texts_from(a.p.i as int, b.p.i as int))
    &&& a.p.i < b.p.i <= tk.len()
    &&& opt_view(b.p.prev_text) == Some(symbol_at(tk, a.p.i as int).0)
    &&& b.p.prev_kind == Some(TokenKind::Symbol)
    &&& simple_symbol(sym_of(symbol_at(tk, a.p.i as int).0)) ==> {
        let pre = simple_symbol_state(
            tk,
            a.p,
            b.p.prev_text,
            b.p.generic_depth,
            b.p.ternary_depth,
        );
        &&& b.p == after_annotation(tk, pre)
        &&& b.p.ternary_depth == a.p.ternary_depth + (if sym_of(symbol_at(tk, a.p.i as int).0)
            == Sym::Question {
            1int
        } else {
            0int
        })
        &&& b.at == annotation_breaks(tk, pre, false)
        &&& exists|w: Seq<char>|
            b.out == w + newline_if(annotation_breaks(tk, pre, false)) && #[trigger] symbol_written(
                tk,
                a.p,
                a.out,
                a.at,
                w,
                b.p.generic_depth as int,
            )
    }
    &&& exists|w: Seq<char>|
        with_optional_break(b.out, w) && #[trigger] symbol_written(
            tk,
            a.p,
            a.out,
            a.at,
            w,
            b.p.generic_depth as int,
        )
}

/// The text `w` that writing the operator at `p.i` after `out` leaves, and
/// the depth of type arguments `depth` after it, as far as the operator's
/// kind fixes them (see `symbol_step`).
#[verifier::opaque]
pub open spec fn symbol_written(
    tk: &Toks,
    p: Printer,
    out: Seq<char>,
    at: bool,
    w: Seq<char>,
    depth: int,
) -> bool {
    let text = symbol_at(tk, p.i as int).0;
    let sym = sym_of(text);
    let next = next_text_spec(tk, p.i + symbol_at(tk, p.i as int).1);
    let ind = p.line_indent();
    let generic = generic_open_angle_at(
        tk,
        p.i as int,
        p.prev_kind,
        opt_view(p.prev_text),
        next,
        at,
    );
    let closes = (sym == Sym::Gt && p.generic_depth >= 1) || (sym == Sym::GtGt
        && p.generic_depth >= 2) || (sym == Sym::GtGtGt && p.generic_depth >= 3);
    let q = Printer { annotation_inline_run_active: false, ..p };
    &&& (sym == Sym::Lt && generic) ==> w == tight_text(out, at, ind, text) && depth
        == p.generic_depth + 1
    &&& (sym == Sym::Lt && !generic) ==> w == binary_text(out, at, ind, text) && depth
        == p.generic_depth
    &&& closes ==> w == tight_text(out, at, ind, text) && depth == p.generic_depth - (if sym
        == Sym::Gt {
        1int
    } else if sym == Sym::GtGt {
        2int
    } else {
        3int
    })
    &&& ((sym == Sym::Gt || sym == Sym::GtGt || sym == Sym::GtGtGt) && !closes) ==> w
        == binary_text(out, at, ind, text) && depth == p.generic_depth
    &&& (sym == Sym::Plus || sym == Sym::Minus) ==> w == plus_minus_text(
        out,
        at,
        ind,
        sym,
        opt_view(p.prev_text),
        next,
        text,
    )
    &&& (sym == Sym::Bang || sym == Sym::Tilde || sym == Sym::Other) ==> w == spaced_before_text(
        out,
        at,
        ind,
        opt_view(p.prev_text),
        text,
    )
    &&& (binary_operator(sym) || sym == Sym::Question) ==> w == binary_text(out, at, ind, text)
    &&& (sym == Sym::PlusPlus || sym == Sym::MinusMinus || sym == Sym::Ellipsis) ==> w
        == tight_text(out, at, ind, text)
    &&& sym == Sym::LBrace ==> w == open_brace_out(
        tk,
        q,
        out,
        at,
        next,
        symbol_at(tk, p.i as int).1 as int,
    )
    &&& sym == Sym::RBrace ==> w == close_brace_out(q, out, at, next)
    &&& sym == Sym::RParen ==> exists|k: int| w == #[trigger] tight_text(out, at, k, ")"@)
    &&& sym == Sym::Semi ==> exists|tail: Seq<char>| w == #[trigger] tight_text(out, at, ind, ";"@) + tail
    &&& sym == Sym::Colon ==> (w == binary_text(out, at, ind, ":"@) || w == tight_text(
        out,
        at,
        ind,
        ":"@,
    ).push('\n'))
    &&& (sym == Sym::Colon && p.ternary_depth > 0) ==> w == binary_text(out, at, ind, ":"@)
    &&& sym == Sym::Comma ==> (w == tight_text(out, at, ind, ","@).push(' ') || w == tight_text(
        out,
        at,
        ind,
        ","@,
    ).push('\n'))
}

/// The operators whose printing changes no state but the previous token,
/// the position, an inline annotation run and the depths of type
/// arguments and conditional expressions.
pub open spec fn simple_symbol(sym: Sym) -> bool {
    ||| binary_operator(sym)
    ||| sym == Sym::Question
    ||| sym == Sym::PlusPlus
    ||| sym == Sym::MinusMinus
    ||| sym == Sym::Ellipsis
    ||| sym == Sym::Bang
    ||| sym == Sym::Tilde
    ||| sym == Sym::Other
    ||| sym == Sym::Lt
    ||| sym == Sym::Gt
    ||| sym == Sym::GtGt
    ||| sym == Sym::GtGtGt
}

/// Whether the operator is one of `simple_symbol`.
fn is_simple_symbol(sym: Sym) -> (r: bool)
    ensures
        r == simple_symbol(sym),
{
    match sym {
        Sym::PlusEq | Sym::MinusEq | Sym::StarEq | Sym::SlashEq | Sym::PercentEq | Sym::AmpEq
        | Sym::PipeEq | Sym::CaretEq | Sym::EqEq | Sym::BangEq | Sym::LtEq | Sym::GtEq
        | Sym::AmpAmp | Sym::PipePipe | Sym::Star | Sym::Slash | Sym::Percent | Sym::Amp
        | Sym::Pipe | Sym::Caret | Sym::Arrow | Sym::LtLt | Sym::LtLtEq | Sym::GtGtEq
        | Sym::GtGtGtEq | Sym::Question | Sym::PlusPlus | Sym::MinusMinus | Sym::Ellipsis
        | Sym::Bang | Sym::Tilde | Sym::Other | Sym::Lt | Sym::Gt | Sym::GtGt | Sym::GtGtGt => true,
        _ => false,
    }
}

/// The state after such an operator, before an annotation closes: the
/// operator (its text held by `pt`) is the previous token, the next token
/// is current, an inline annotation run has ended, and the depths are `g`
/// and `t`.
pub open spec fn simple_symbol_state(tk: &Toks, p: Printer, pt: Option<Vec<char>>, g: usize, t: usize) -> Printer {
    Printer {
        prev_text: pt,
        prev_kind: Some(TokenKind::Symbol),
        i: (p.i + symbol_at(tk, p.i as int).1) as usize,
        ..Printer {
            annotation_inline_run_active: false,
            generic_depth: g,
            ternary_depth: t,
            ..p
        }
    }
}

/// The operators written with a space on either side.
pub open spec fn binary_operator(sym: Sym) -> bool {
    sym == Sym::PlusEq || sym == Sym::MinusEq || sym == Sym::StarEq || sym == Sym::SlashEq || sym
        == Sym::PercentEq || sym == Sym::AmpEq || sym == Sym::PipeEq || sym == Sym::CaretEq || sym
        == Sym::EqEq || sym == Sym::BangEq || sym == Sym::LtEq || sym == Sym::GtEq || sym
        == Sym::AmpAmp || sym == Sym::PipePipe || sym == Sym::Star || sym == Sym::Slash || sym
        == Sym::Percent || sym == Sym::Amp || sym == Sym::Pipe || sym == Sym::Caret || sym
        == Sym::Arrow || sym == Sym::LtLt || sym == Sym::LtLtEq || sym == Sym::GtGtEq || sym
        == Sym::GtGtGtEq
}

/// An annotation open at the top of its parentheses is closed before the
/// token at `p.i`, unless that token is a `.` or a `(` that continues it.
pub open spec fn annotation_closes(tk: &Toks, p: Printer) -> bool {
    &&& p.annotation_active
    &&& p.annotation_paren_depth == 0
    &&& !(next_text_spec(tk, p.i as int) == Some("."@) || next_text_spec(tk, p.i as int) == Some(
        "("@,
    ))
}

/// The state once an annotation that closes here is closed.
pub open spec fn after_annotation(tk: &Toks, p: Printer) -> Printer {
    if annotation_closes(tk, p) {
        p.annotation_finished(p.annotation_keeps_inline(tk))
    } else {
        p
    }
}

/// Closing the annotation breaks the line: it does not stay inline, it is
/// outside parentheses, and the text is not at the start of a line.
pub open spec fn annotation_breaks(tk: &Toks, p: Printer, at: bool) -> bool {
    annotation_closes(tk, p) && !p.annotation_keeps_inline(tk) && p.paren_depth == 0 && !at
}

/// The state after the word at `p.i` before an annotation closes: `noted`
/// says what the word announces, the word (its text held by `pt`) is the
/// previous token, and the next token is current.
pub open spec fn word_state(tk: &Toks, p: Printer, pt: Option<Vec<char>>) -> Printer {
    Printer {
        i: (p.i + 1) as usize,
        prev_text: pt,
        prev_kind: Some(TokenKind::Word),
        ..p.noted(tk, tk.texts@[p.i as int]@)
    }
}

/// Noting a word and closing an annotation keep the previous token.
proof fn lemma_keeps_previous(p: Printer, tk: &Toks, w: Seq<char>, keep: bool)
    ensures
        p.noted(tk, w).prev_text == p.prev_text,
        p.noted(tk, w).prev_kind == p.prev_kind,
        p.annotation_finished(keep).prev_text == p.prev_text,
        p.annotation_finished(keep).prev_kind == p.prev_kind,
        p.noted(tk, w).i == p.i,
        p.annotation_finished(keep).generic_depth == p.generic_depth,
        p.annotation_finished(keep).ternary_depth == p.ternary_depth,
        p.annotation_finished(keep).i == p.i,
{
    reveal(Printer::noted);
    reveal(Printer::annotation_finished);
}

/// What printing a word does (see `Printer::word`): it becomes visible as
/// it is; outside a switch label it is written after a space where one is
/// needed (not in `non-sealed`, nor between `>` and a call's name), at the
/// indentation of the line, and followed by the line break of a module
/// clause, of an annotation that ends, and before a text block after
/// `return`, where those apply, all read off the state `a` before the word.
/// Outside a switch label the step fixes the whole printer state after the
/// word (`word_state`, then the close of an annotation), up to which vector
/// holds the previous token's text; it leaves open whether an annotation
/// that closes there breaks the line (the text is one of two) and whether
/// the text then ends at the start of a line. For a switch label it leaves
/// the text beyond its visible characters, and the state after it,
/// unstated.
#[verifier::opaque]
pub open spec fn word_step(tk: &Toks, a: Snap, b: Snap) -> bool {
    let i = a.p.i as int;
    let w = tk.texts@[i]@;
    let label = (w == "case"@ || w == "default"@) && a.p.block_stack@.len() > 0
        && a.p.block_stack@.last().kind == BlockKind::Switch;
    let suppress = a.p.pending_non_sealed && w == "sealed"@;
    let tight = (opt_view(a.p.prev_text) matches Some(t) && closes_type_args(t)) && next_text_spec(
        tk,
        i + 1,
    ) == Some("("@);
    let spaced_out = if !suppress && !tight && space_needed(opt_view(a.p.prev_text), w, a.at) {
        spaced(a.out, a.at)
    } else {
        a.out
    };
    let x = spaced_out + lead(a.at, a.p.line_indent()) + w + newline_if(
        a.p.module_clause_break(w),
    );
    let text_block = w == "return"@ && i + 1 < tk.len() && tk.toks@[i + 1].kind
        == TokenKind::StringLiteral && seq_starts_with(tk.texts@[i + 1]@, "\"\"\""@);
    &&& visible(b.out) == visible(a.out) + visible(tk.texts_from(i, b.p.i as int))
    &&& a.p.i < b.p.i <= tk.len()
    &&& !label ==> b.p.i == i + 1 && (b.out == x + newline_if(text_block) || b.out == x.push('\n')
        + newline_if(text_block))
    &&& !label ==> opt_view(b.p.prev_text) == Some(w) && b.p.prev_kind == Some(TokenKind::Word)
    &&& !label ==> b.p == after_annotation(
        tk,
        word_state(
            tk,
            Printer { pending_non_sealed: false, annotation_inline_run_active: false, ..a.p },
            b.p.prev_text,
        ),
    )
}

/// What printing a string or character literal does (see
/// `Printer::literal`): after a space where one is needed, a text block
/// that starts a line is written as it is, any other literal at the
/// indentation of the line; the literal becomes the previous token, an
/// inline annotation run ends, and nothing else of the state changes.
#[verifier::opaque]
pub open spec fn literal_step(tk: &Toks, a: Snap, b: Snap) -> bool {
    let i = a.p.i as int;
    let t = tk.texts@[i]@;
    let out1 = if space_needed(opt_view(a.p.prev_text), t, a.at) {
        spaced(a.out, a.at)
    } else {
        a.out
    };
    &&& visible(b.out) == visible(a.out) + visible(tk.texts_from(i, b.p.i as int))
    &&& b.p.i == i + 1
    &&& b.out == if a.at && seq_starts_with(t, "\"\"\""@) {
        out1 + t
    } else {
        out1 + lead(a.at, a.p.line_indent()) + t
    }
    &&& !b.at
    &&& opt_view(b.p.prev_text) == Some(t)
    &&& b.p == (Printer {
        i: (i + 1) as usize,
        annotation_inline_run_active: false,
        prev_text: b.p.prev_text,
        prev_kind: Some(tk.toks@[i].kind),
        ..a.p
    })
}

/// One step of the printer on the token at `a.p.i`, by its kind.
#[verifier::opaque]
pub open spec fn token_step(tk: &Toks, a: Snap, b: Snap) -> bool {
    let kind = tk.toks@[a.p.i as int].kind;
    if kind == TokenKind::Symbol {
        symbol_step(tk, a, b)
    } else if kind == TokenKind::Word {
        word_step(tk, a, b)
    } else if kind == TokenKind::StringLiteral || kind == TokenKind::CharLiteral {
        literal_step(tk, a, b)
    } else if kind == TokenKind::LineComment {
        b.p.i == a.p.i + 1 && visible(b.out) == visible(a.out) + visible(
            tk.texts_from(a.p.i as int, b.p.i as int),
        )
    } else if kind == TokenKind::BlockComment {
        b.p.i == a.p.i + 1 && exists|n: nat|
            visible(b.out) == visible(a.out) + visible(
                #[trigger] spec_normalize_block_comment(tk.texts@[a.p.i as int]@, n),
            )
    } else {
        b == Snap { p: Printer { i: (a.p.i + 1) as usize, ..a.p }, ..a }
    }
}

/// A run of the printer over the tokens: it starts in the initial state,
/// each state follows from the one before by a step on its token, and the
/// last state is past every token.
pub open spec fn printer_run(tk: &Toks, trace: Seq<Snap>) -> bool {
    &&& trace.len() >= 1
    &&& initial_snap(trace[0])
    &&& forall|k: int|
        0 <= k < trace.len() - 1 ==> #[trigger] token_step(tk, trace[k], trace[k + 1])
    &&& forall|k: int| 0 <= k < trace.len() - 1 ==> trace[k].p.i < tk.len()
    &&& trace.last().p.i >= tk.len()
}

/// The printer's text from what a run wrote: runs of newlines cut to two,
/// and a final newline added to a text that has none.
pub open spec fn finished_output(out: Seq<char>) -> Seq<char> {
    let c = collapse_newlines(out, 0);
    if c.len() > 0 && c.last() != '\n' {
        c.push('\n')
    } else {
        c
    }
}

/// A newline where `b` holds, else nothing.
pub open spec fn newline_if(b: bool) -> Seq<char> {
    if b {
        seq!['\n']
    } else {
        Seq::empty()
    }
}

/// What is visible of the output after tokens `a..c` is what was visible
/// after `a..b`, then what is visible of `b..c`.
pub proof fn lemma_visible_extend(tk: &Toks, out: Seq<char>, a: int, b: int, c: int)
    requires
        a <= b <= c,
    ensures
        visible(out) + visible(tk.texts_from(a, c)) == (visible(out) + visible(tk.texts_from(a, b)))
            + visible(tk.texts_from(b, c)),
{
    lemma_texts_from_split(tk, a, b, c);
    lemma_visible_concat(tk.texts_from(a, b), tk.texts_from(b, c));
    assert(visible(out) + (visible(tk.texts_from(a, b)) + visible(tk.texts_from(b, c))) =~= (
    visible(out) + visible(tk.texts_from(a, b))) + visible(tk.texts_from(b, c)));
}

/// Every block comment keeps its visible characters when it is normalized,
/// at whatever indentation: javadoc reflow adds ` * ` prefixes and `<p>`
/// tags, and the trimming of a one-line comment may drop tabs.
pub open spec fn comments_keep_text(tk: &Toks) -> bool {
    forall|k: int, n: nat|
        0 <= k < tk.len() && tk.toks@[k].kind == TokenKind::BlockComment ==> #[trigger] visible(
            spec_normalize_block_comment(tk.texts@[k]@, n),
        ) == visible(tk.texts@[k]@)
}

/// The right-hand side that starts at `index` goes on a line of its own: a
/// block lambda, or what `should_break_assignment_rhs` asks to break.
fn rhs_on_new_line(tk: &Toks, index: usize) -> (r: bool)
    requires
        tk.wf(),
    ensures
        r == (block_lambda_from(tk, index as int, 0) || rhs_breaks_at(tk, index as int)),
{
    starts_block_lambda_rhs(tk, index) || should_break_assignment_rhs(tk, index)
}

impl Printer {
    /// Every counter and remembered indentation is at most `b`.
    pub open spec fn bounded(&self, b: int) -> bool {
        &&& self.indent <= b
        &&& self.paren_depth <= b
        &&& self.bracket_depth <= b
        &&& self.annotation_paren_depth <= b
        &&& self.annotation_brace_depth <= b
        &&& self.annotation_multiline_args_paren_depth <= b
        &&& self.annotation_multiline_base_indent <= b
        &&& self.lambda_continuation_base_indent <= b
        &&& self.try_resource_paren_depth <= b
        &&& self.try_resource_continuation_base_indent <= b
        &&& self.module_continuation_base_indent <= b
        &&& self.generic_depth <= b
        &&& self.ternary_depth <= b
        &&& self.call_args_continuation_paren_depth <= b
        &&& self.call_args_continuation_base_indent <= b
        &&& self.chain_continuation_paren_depth <= b
        &&& self.chain_continuation_bracket_depth <= b
        &&& self.chain_continuation_dot_count <= b
    }

    /// The printer has consumed `i` of the tokens and its counters are in
    /// range.
    pub open spec fn inv(&self, tk: &Toks) -> bool {
        &&& tk.wf()
        &&& self.i <= tk.len()
        &&& cap(self.i as int) + 8 <= usize::MAX / 8
        &&& self.bounded(cap(self.i as int))
    }

    pub fn new() -> (p: Printer)
        ensures
            initial_snap(Snap { p, out: Seq::empty(), at: true }),
            p.i == 0,
            p.bounded(0),
    {
        Printer {
            i: 0,
            indent: 0,
            paren_depth: 0,
            bracket_depth: 0,
            block_stack: Vec::new(),
            prev_text: None,
            prev_kind: None,
            annotation_active: false,
            annotation_paren_depth: 0,
            annotation_brace_depth: 0,
            annotation_has_args: false,
            annotation_name: None,
            annotation_started_line_start: false,
            annotation_inline_run_active: false,
            annotation_multiline_args_active: false,
            annotation_multiline_args_paren_depth: 0,
            annotation_multiline_base_indent: 0,
            pending_switch_block: false,
            pending_type_block: false,
            pending_enum_block: false,
            pending_module_block: false,
            pending_non_sealed: false,
            lambda_continuation_active: false,
            lambda_continuation_base_indent: 0,
            lambda_continuation_base_block_depth: 0,
            try_resource_paren_depth: 0,
            try_resource_continuation_active: false,
            try_resource_continuation_base_indent: 0,
            module_continuation_active: false,
            module_continuation_base_indent: 0,
            generic_depth: 0,
            ternary_depth: 0,
            pending_top_level_directive: None,
            pending_module_directive: None,
            call_args_continuation_active: false,
            call_args_continuation_paren_depth: 0,
            call_args_continuation_base_indent: 0,
            call_args_comment_mode: false,
            call_args_vertical_mode: false,
            chain_continuation_active: false,
            chain_continuation_paren_depth: 0,
            chain_continuation_bracket_depth: 0,
            chain_continuation_dot_count: 0,
            chain_keep_leading_dots: 0,
            switch_arrow_comment_indent_active: false,
        }
    }

    /// The kind of the innermost open block.
    fn top_kind(&self) -> (r: Option<BlockKind>)
        ensures
            self.block_stack@.len() == 0 ==> r is None,
            self.block_stack@.len() > 0 ==> r == Some(self.block_stack@.last().kind),
    {
        if self.block_stack.len() == 0 {
            None
        } else {
            Some(self.block_stack[self.block_stack.len() - 1].kind)
        }
    }

    /// The innermost open block is a class, interface or enum body.
    fn in_type_body(&self) -> (r: bool)
        ensures
            r == (self.block_stack@.len() > 0 && (self.block_stack@.last().kind
                == BlockKind::TypeBody || self.block_stack@.last().kind == BlockKind::EnumBody)),
    {
        match self.top_kind() {
            Some(BlockKind::TypeBody) | Some(BlockKind::EnumBody) => true,
            _ => false,
        }
    }

    /// The indentation level of the current line: one deeper inside a `case`
    /// of a switch.
    pub open spec fn line_indent(&self) -> int {
        if self.block_stack@.len() > 0 && self.block_stack@.last().kind == BlockKind::Switch
            && self.block_stack@.last().in_switch_case {
            self.indent + 1
        } else {
            self.indent as int
        }
    }

    /// The indentation of the current line.
    fn cur(&self) -> (r: usize)
        requires
            self.indent <= usize::MAX / 8,
        ensures
            r <= self.indent + 1,
            r == self.line_indent(),
    {
        active_indent(self.indent, &self.block_stack)
    }





    /// Every bound that held of the counters before still holds.
    pub open spec fn keeps_bounds(self, other: Printer) -> bool {
        forall|b: int| other.bounded(b) ==> #[trigger] self.bounded(b)
    }

    /// Every counter is unchanged.
    pub open spec fn bounded_same(self, other: Printer) -> bool {
        &&& self.indent == other.indent
        &&& self.paren_depth == other.paren_depth
        &&& self.bracket_depth == other.bracket_depth
        &&& self.annotation_paren_depth == other.annotation_paren_depth
        &&& self.annotation_brace_depth == other.annotation_brace_depth
        &&& self.annotation_multiline_args_paren_depth == other.annotation_multiline_args_paren_depth
        &&& self.annotation_multiline_base_indent == other.annotation_multiline_base_indent
        &&& self.lambda_continuation_base_indent == other.lambda_continuation_base_indent
        &&& self.try_resource_paren_depth == other.try_resource_paren_depth
        &&& self.try_resource_continuation_base_indent == other.try_resource_continuation_base_indent
        &&& self.module_continuation_base_indent == other.module_continuation_base_indent
        &&& self.generic_depth == other.generic_depth
        &&& self.ternary_depth == other.ternary_depth
        &&& self.call_args_continuation_paren_depth == other.call_args_continuation_paren_depth
        &&& self.call_args_continuation_base_indent == other.call_args_continuation_base_indent
        &&& self.chain_continuation_paren_depth == other.chain_continuation_paren_depth
        &&& self.chain_continuation_bracket_depth == other.chain_continuation_bracket_depth
        &&& self.chain_continuation_dot_count == other.chain_continuation_dot_count
        &&& self.chain_keep_leading_dots == other.chain_keep_leading_dots
    }

    /// Sets the `in_switch_case` flag of the innermost block.
    fn set_switch_case(self, value: bool) -> (r: Printer)
        ensures
            r.i == self.i,
            r.bounded_same(self),
            r.block_stack@.len() == self.block_stack@.len(),
            r == (Printer { block_stack: r.block_stack, ..self }),
            r.block_stack@ == if self.block_stack@.len() > 0 {
                self.block_stack@.update(
                    self.block_stack@.len() - 1,
                    BlockFrame { in_switch_case: value, ..self.block_stack@.last() },
                )
            } else {
                self.block_stack@
            },
    {
        let mut p = self;
        let n = p.block_stack.len();
        if n > 0 {
            let mut frame = p.block_stack[n - 1];
            frame.in_switch_case = value;
            p.block_stack.set(n - 1, frame);
        }
        p
    }

    /// A line comment: kept on the line of an opening brace it follows in the
    /// source, normalized, and always ending its line.
    #[verifier::rlimit(60)]
    fn line_comment(self, sink: &mut Sink, tk: &Toks) -> (r: Printer)
        requires
            self.inv(tk),
            self.i < tk.len(),
        ensures
            visible(final(sink).out@) == visible(old(sink).out@) + visible(tk.texts_from(self.i as int, r.i as int)),
            r.i == self.i + 1,
            r.bounded(cap(self.i as int) + 8),
    {
        let mut p = self;
        let i = p.i;
        p.annotation_inline_run_active = false;
        let arrow_comment = opt_is(&p.prev_text, "->");
        let initializer_comment = opt_is(&p.prev_text, ",") && p.top_kind() == Some(
            BlockKind::Initializer,
        );
        if i > 0 && sink.at_line_start && ends_with_char(&sink.out, '\n') && tk.is(i - 1, "{")
            && !tk.gap_has_newline(i - 1, i) {
            sink.drop_newline();
        }
        if initializer_comment && !sink.at_line_start {
            sink.newline();
        }
        if arrow_comment && sink.at_line_start && !p.switch_arrow_comment_indent_active {
            p.indent = p.indent + 2;
            p.switch_arrow_comment_indent_active = true;
        }
        sink.space();
        let normalized = normalize_line_comment_text(&tk.texts[i]);
        let mut current_indent = p.cur();
        let next = if i + 1 < tk.count() {
            next_symbol_text(tk, i + 1)
        } else {
            None
        };
        let in_case = p.block_stack.len() > 0 && {
            let frame = p.block_stack[p.block_stack.len() - 1];
            frame.kind == BlockKind::Switch && frame.in_switch_case
        };
        if sink.at_line_start && in_case && (opt_is(&next, "case") || opt_is(&next, "default")) {
            current_indent = if current_indent > 0 {
                current_indent - 1
            } else {
                0
            };
        }
        sink.put(current_indent, &normalized);
        sink.newline();
        if arrow_comment && !p.switch_arrow_comment_indent_active {
            p.indent = p.indent + 2;
            p.switch_arrow_comment_indent_active = true;
        }
        p.prev_text = Some(vec_of("//"));
        p.prev_kind = Some(TokenKind::LineComment);
        p.i = i + 1;
        proof {
            lemma_texts_from_one(tk, i as int);
            lemma_visible_line_comment(tk.texts@[i as int]@);
        }
        p
    }

    /// A block comment: attached to a statement or brace it follows, or on a
    /// line of its own.
    #[verifier::rlimit(60)]
    fn block_comment(self, sink: &mut Sink, tk: &Toks) -> (r: Printer)
        requires
            tk.toks@[self.i as int].kind == TokenKind::BlockComment,
            self.inv(tk),
            self.i < tk.len(),
        ensures
            exists|n: nat| visible(final(sink).out@) == visible(old(sink).out@) + visible(spec_normalize_block_comment(tk.texts@[self.i as int]@, n)),
            comments_keep_text(tk) ==> visible(final(sink).out@) == visible(old(sink).out@) + visible(tk.texts_from(self.i as int, r.i as int)),
            r.i == self.i + 1,
            r.bounded(cap(self.i as int) + 8),
    {
        let mut p = self;
        let i = p.i;
        p.annotation_inline_run_active = false;
        let started_line_start = sink.at_line_start;
        let attach_after_statement = i > 0 && sink.at_line_start && ends_with_char(&sink.out, '\n')
            && tk.is(i - 1, ";") && !tk.gap_has_newline(i - 1, i);
        let leading_block_comment = i > 0 && sink.at_line_start && ends_with_char(&sink.out, '\n')
            && tk.is(i - 1, "{");
        if attach_after_statement {
            sink.drop_newline();
        }
        if !opt_is(&p.prev_text, "(") {
            sink.space();
        }
        let current_indent = p.cur();
        let comment_indent = if leading_block_comment {
            current_indent + 1
        } else {
            current_indent
        };
        let text = normalize_block_comment_text(&tk.texts[i], comment_indent);
        sink.put(comment_indent, &text);
        if ends_with_char(&text, '\n') {
            sink.at_line_start = true;
        } else if attach_after_statement || leading_block_comment || (started_line_start
            && p.paren_depth == 0) {
            sink.newline();
        }
        p.prev_text = Some(vec_of("/*"));
        p.prev_kind = Some(TokenKind::BlockComment);
        p.i = i + 1;
        proof {
            lemma_texts_from_one(tk, i as int);
            assert(visible(sink.out@) == visible(old(sink).out@) + visible(
                spec_normalize_block_comment(tk.texts@[i as int]@, comment_indent as nat),
            ));
            if comments_keep_text(tk) {
                assert(visible(spec_normalize_block_comment(tk.texts@[i as int]@, comment_indent as nat))
                    == visible(tk.texts@[i as int]@));
            }
        }
        p
    }

    /// The tokens of a `case`/`default` label, up to its `:` or `->`.
    #[verifier::rlimit(60)]
    fn switch_label(self, sink: &mut Sink, tk: &Toks) -> (r: Printer)
        requires
            self.inv(tk),
            self.i < tk.len(),
        ensures
            visible(final(sink).out@) == visible(old(sink).out@) + visible(tk.texts_from(self.i as int, r.i as int)),
            r.i > self.i,
            r.i <= tk.len(),
            r.bounded(cap(self.i as int) + 8),
    {
        let i0 = self.i;
        let ghost out0 = sink.out@;
        let mut p = self;
        p = p.set_switch_case(false);
        if !sink.at_line_start {
            sink.newline();
        }
        let current_indent = p.cur();
        let word = tk.text(i0);
        sink.put(current_indent, &word);
        let mut label_prev_text: Option<Vec<char>> = Some(word);
        p.i = i0 + 1;
        proof {
            lemma_texts_from_one(tk, i0 as int);
        }
        while p.i < tk.count()
            invariant
                tk.wf(),
                i0 == self.i,
                i0 < p.i <= tk.len(),
                cap(i0 as int) + 8 <= usize::MAX / 8,
                current_indent <= usize::MAX / 4,
                p.bounded(cap(i0 as int) + 8),
                visible(sink.out@) == visible(out0) + visible(tk.texts_from(i0 as int, p.i as int)),
                out0 == old(sink).out@,
            decreases tk.len() - p.i,
        {
            let i = p.i;
            if tk.kind(i) == TokenKind::Symbol {
                let (symbol, consumed) = read_symbol(tk, i);
                let sym = classify_symbol(&symbol);
                proof {
                    lemma_symbol_text(tk, i as int);
                    lemma_visible_extend(tk, out0, i0 as int, i as int, i + consumed);
                }
                if sym == Sym::Colon {
                    sink.put_str(current_indent, ":");
                    let inline_line_comment = i + consumed < tk.count() && tk.kind(i + consumed)
                        == TokenKind::LineComment && !tk.gap_has_newline(i, i + consumed);
                    if inline_line_comment {
                        sink.push_layout(' ');
                        sink.at_line_start = false;
                    } else {
                        sink.newline();
                    }
                    p = p.set_switch_case(true);
                    p.prev_text = Some(vec_of(":"));
                    p.prev_kind = Some(TokenKind::Symbol);
                    p.i = i + consumed;
                    return p;
                }
                if sym == Sym::Arrow {
                    sink.space();
                    sink.put_str(current_indent, "->");
                    let multiline_line_comment = i + consumed < tk.count() && tk.kind(i + consumed)
                        == TokenKind::LineComment && tk.gap_has_newline(i, i + consumed);
                    if multiline_line_comment {
                        sink.newline();
                    } else {
                        sink.push_layout(' ');
                    }
                    p.prev_text = Some(vec_of("->"));
                    p.prev_kind = Some(TokenKind::Symbol);
                    p.i = i + consumed;
                    return p;
                }
                if sym == Sym::Comma {
                    sink.put_str(current_indent, ",");
                    sink.push_layout(' ');
                    label_prev_text = Some(vec_of(","));
                    p.i = i + consumed;
                    continue ;
                }
                if sym == Sym::Dot || sym == Sym::LBracket || sym == Sym::RBracket || sym
                    == Sym::ColonColon {
                    sink.put(current_indent, &symbol);
                } else if sym == Sym::LParen {
                    if needs_space_before_open_paren(&label_prev_text) {
                        sink.space();
                    }
                    sink.put_str(current_indent, "(");
                } else if sym == Sym::RParen {
                    sink.put_str(current_indent, ")");
                } else if sym == Sym::Question || sym == Sym::EqEq || sym == Sym::BangEq || sym
                    == Sym::LtEq || sym == Sym::GtEq || sym == Sym::AmpAmp || sym == Sym::PipePipe
                    || sym == Sym::Plus || sym == Sym::Minus || sym == Sym::Star || sym
                    == Sym::Slash || sym == Sym::Percent || sym == Sym::Lt || sym == Sym::Gt || sym
                    == Sym::Amp || sym == Sym::Pipe || sym == Sym::Caret {
                    sink.space();
                    sink.put(current_indent, &symbol);
                    sink.push_layout(' ');
                } else {
                    sink.space();
                    sink.put(current_indent, &symbol);
                }
                label_prev_text = Some(symbol);
                p.i = i + consumed;
                continue ;
            }
            if needs_space_before(&label_prev_text, &tk.texts[i], sink.at_line_start) {
                sink.space();
            }
            sink.put(current_indent, &tk.texts[i]);
            label_prev_text = Some(tk.text(i));
            proof {
                lemma_texts_from_one(tk, i as int);
                lemma_visible_extend(tk, out0, i0 as int, i as int, i + 1);
            }
            p.i = i + 1;
        }
        p
    }

    /// The innermost open block is a class, interface or enum body.
    pub open spec fn in_type_body_spec(&self) -> bool {
        self.block_stack@.len() > 0 && (self.block_stack@.last().kind == BlockKind::TypeBody
            || self.block_stack@.last().kind == BlockKind::EnumBody)
    }

    /// The annotation that ended before the current token stays on the line
    /// of what it annotates.
    pub open spec fn annotation_keeps_inline(&self, tk: &Toks) -> bool {
        keep_inline_annotation(
            tk,
            self.i as int,
            self.in_type_body_spec(),
            self.block_stack@.len() == 0 && self.paren_depth == 0,
            opt_view(self.annotation_name),
            self.annotation_started_line_start,
            self.annotation_has_args,
            self.paren_depth as nat,
        )
    }

    /// The state once the annotation is closed: no annotation is open, an
    /// inline run goes on when the annotation stays inline, and the
    /// indentation of broken annotation arguments is given back.
    #[verifier::opaque]
    pub open spec fn annotation_finished(&self, keep_inline: bool) -> Printer {
        Printer {
            annotation_active: false,
            annotation_brace_depth: 0,
            annotation_has_args: false,
            annotation_name: None,
            annotation_inline_run_active: keep_inline,
            indent: if self.annotation_multiline_args_active {
                self.annotation_multiline_base_indent
            } else {
                self.indent
            },
            annotation_multiline_args_active: false,
            annotation_multiline_args_paren_depth: if self.annotation_multiline_args_active {
                0
            } else {
                self.annotation_multiline_args_paren_depth
            },
            ..*self
        }
    }

    /// Closes an annotation whose name (and arguments) have been printed,
    /// breaking the line after it unless it stays inline.
    #[verifier::rlimit(60)]
    fn finish_annotation(self, sink: &mut Sink, tk: &Toks) -> (r: Printer)
        requires
            tk.wf(),
            self.indent <= usize::MAX / 8,
        ensures
            r.generic_depth == self.generic_depth,
            visible(final(sink).out@) == visible(old(sink).out@),
            r.i == self.i,
            r.keeps_bounds(self),
            next_text_spec(tk, self.i as int) == Some("."@) || next_text_spec(tk, self.i as int)
                == Some("("@) ==> r == self && final(sink).out@ == old(sink).out@
                && final(sink).at_line_start == old(sink).at_line_start,
            !(next_text_spec(tk, self.i as int) == Some("."@) || next_text_spec(tk, self.i as int)
                == Some("("@)) ==> {
                let keep = self.annotation_keeps_inline(tk);
                let breaks = !keep && self.paren_depth == 0 && !old(sink).at_line_start;
                &&& r == self.annotation_finished(keep)
                &&& final(sink).out@ == if breaks {
                    old(sink).out@.push('\n')
                } else {
                    old(sink).out@
                }
                &&& final(sink).at_line_start == (old(sink).at_line_start || breaks)
            },
    {
        let next = next_symbol_text(tk, self.i);
        if opt_is(&next, ".") || opt_is(&next, "(") {
            return self;
        }
        let in_type_body = self.in_type_body();
        let keep_inline = should_keep_inline_annotation(
            tk,
            self.i,
            in_type_body,
            self.block_stack.len() == 0 && self.paren_depth == 0,
            &self.annotation_name,
            self.annotation_started_line_start,
            self.annotation_has_args,
            self.paren_depth,
        );
        if !keep_inline && self.paren_depth == 0 && !sink.at_line_start {
            sink.newline();
        }
        let multiline = self.annotation_multiline_args_active;
        let indent = if multiline {
            self.annotation_multiline_base_indent
        } else {
            self.indent
        };
        let multiline_paren_depth = if multiline {
            0
        } else {
            self.annotation_multiline_args_paren_depth
        };
        let ghost before = self;
        let p = Printer {
            annotation_active: false,
            annotation_brace_depth: 0,
            annotation_has_args: false,
            annotation_name: None,
            annotation_inline_run_active: keep_inline,
            indent,
            annotation_multiline_args_active: false,
            annotation_multiline_args_paren_depth: multiline_paren_depth,
            ..self
        };
        proof {
            reveal(Printer::annotation_finished);
            assert(p == before.annotation_finished(keep_inline));
        }
        p
    }

    /// A word continues a module clause on a line of its own: `to` or `with`
    /// at the top of a module body.
    pub open spec fn module_clause_break(&self, word: Seq<char>) -> bool {
        &&& self.block_stack@.len() > 0
        &&& self.block_stack@.last().kind == BlockKind::ModuleBody
        &&& self.paren_depth == 0
        &&& (word == "to"@ || word == "with"@)
    }

    /// The state after the word at token `i`: a `return` that starts a long
    /// chain opens a chain continuation; `switch`, `enum`, `module` and type
    /// keywords announce their blocks; at the top level and in a module body
    /// the first directive word is remembered; `to` and `with` in a module
    /// body open a module clause continuation, two levels deeper.
    #[verifier::opaque]
    pub open spec fn noted(&self, tk: &Toks, word: Seq<char>) -> Printer {
        let chain = chain_result(chain_scan(tk, self.i + 1, chain_start()));
        let chained = word == "return"@ && chain is Some;
        let top = top_level_directive_of(word);
        let take_top = self.block_stack@.len() == 0 && self.paren_depth == 0
            && self.pending_top_level_directive is None && top is Some;
        let module = module_directive_of(word);
        let take_module = self.block_stack@.len() > 0 && self.block_stack@.last().kind
            == BlockKind::ModuleBody && self.paren_depth == 0 && self.pending_module_directive is None
            && module is Some;
        let clause = self.module_clause_break(word);
        let opens_clause = clause && !self.module_continuation_active;
        Printer {
            chain_continuation_active: chained || self.chain_continuation_active,
            chain_continuation_paren_depth: if chained {
                self.paren_depth
            } else {
                self.chain_continuation_paren_depth
            },
            chain_continuation_bracket_depth: if chained {
                self.bracket_depth
            } else {
                self.chain_continuation_bracket_depth
            },
            chain_continuation_dot_count: if chained {
                0
            } else {
                self.chain_continuation_dot_count
            },
            chain_keep_leading_dots: if chained {
                chain.unwrap().keep_leading_dots
            } else {
                self.chain_keep_leading_dots
            },
            pending_switch_block: self.pending_switch_block || word == "switch"@,
            pending_enum_block: self.pending_enum_block || word == "enum"@,
            pending_module_block: self.pending_module_block || word == "module"@,
            pending_type_block: self.pending_type_block || is_type_keyword(word),
            pending_top_level_directive: if take_top {
                top
            } else {
                self.pending_top_level_directive
            },
            pending_module_directive: if take_module {
                module
            } else {
                self.pending_module_directive
            },
            module_continuation_active: clause || self.module_continuation_active,
            module_continuation_base_indent: if opens_clause {
                self.indent
            } else {
                self.module_continuation_base_indent
            },
            indent: if opens_clause {
                (self.indent + 2) as usize
            } else {
                self.indent
            },
            ..*self
        }
    }

    /// What a word announces: a chained `return`, a block kind, a top-level
    /// or module directive, or a module clause continuation.
    #[verifier::rlimit(100)]
    fn note_word(self, sink: &mut Sink, tk: &Toks, word: &[char]) -> (r: Printer)
        requires
            self.inv(tk),
            self.i < tk.len(),
        ensures
            visible(final(sink).out@) == visible(old(sink).out@),
            r.i == self.i,
            r.bounded(cap(self.i as int) + 2),
            r == self.noted(tk, word@),
            final(sink).out@ == old(sink).out@ + newline_if(self.module_clause_break(word@)),
            final(sink).at_line_start == (old(sink).at_line_start || self.module_clause_break(
                word@,
            )),
    {
        let ghost before = self;
        let ghost out0 = sink.out@;
        let i = self.i;
        let mut chained = false;
        let mut keep_leading_dots: usize = 0;
        if text_is(word, "return") {
            match chain_continuation_metrics(tk, i + 1) {
                Some(metrics) => {
                    chained = true;
                    keep_leading_dots = metrics.keep_leading_dots;
                },
                None => {},
            }
        }
        let mut pending_top_level_directive = self.pending_top_level_directive;
        if self.block_stack.len() == 0 && self.paren_depth == 0
            && self.pending_top_level_directive.is_none() {
            match top_level_directive_from_word(word) {
                Some(directive) => {
                    pending_top_level_directive = Some(directive);
                },
                None => {},
            }
        }
        let in_module_body = self.top_kind() == Some(BlockKind::ModuleBody);
        let mut pending_module_directive = self.pending_module_directive;
        if in_module_body && self.paren_depth == 0 && self.pending_module_directive.is_none() {
            match module_directive_from_word(word) {
                Some(directive) => {
                    pending_module_directive = Some(directive);
                },
                None => {},
            }
        }
        let clause = in_module_body && self.paren_depth == 0 && (text_is(word, "to") || text_is(
            word,
            "with",
        ));
        if clause {
            sink.newline();
        }
        let opens_clause = clause && !self.module_continuation_active;
        let p = Printer {
            chain_continuation_active: chained || self.chain_continuation_active,
            chain_continuation_paren_depth: if chained {
                self.paren_depth
            } else {
                self.chain_continuation_paren_depth
            },
            chain_continuation_bracket_depth: if chained {
                self.bracket_depth
            } else {
                self.chain_continuation_bracket_depth
            },
            chain_continuation_dot_count: if chained {
                0
            } else {
                self.chain_continuation_dot_count
            },
            chain_keep_leading_dots: if chained {
                keep_leading_dots
            } else {
                self.chain_keep_leading_dots
            },
            pending_switch_block: self.pending_switch_block || text_is(word, "switch"),
            pending_enum_block: self.pending_enum_block || text_is(word, "enum"),
            pending_module_block: self.pending_module_block || text_is(word, "module"),
            pending_type_block: self.pending_type_block || is_type_declaration_keyword(word),
            pending_top_level_directive,
            pending_module_directive,
            module_continuation_active: clause || self.module_continuation_active,
            module_continuation_base_indent: if opens_clause {
                self.indent
            } else {
                self.module_continuation_base_indent
            },
            indent: if opens_clause {
                self.indent + 2
            } else {
                self.indent
            },
            ..self
        };
        proof {
            reveal(Printer::noted);
            assert(p == before.noted(tk, word@));
            assert(sink.out@ =~= out0 + newline_if(before.module_clause_break(word@)));
        }
        p
    }

    /// A word: keyword, identifier or number.
    #[verifier::rlimit(100)]
    fn word(self, sink: &mut Sink, tk: &Toks) -> (r: Printer)
        requires
            self.inv(tk),
            self.i < tk.len(),
        ensures
            word_step(tk, Snap { p: self, out: old(sink).out@, at: old(sink).at_line_start }, Snap { p: r, out: final(sink).out@, at: final(sink).at_line_start }),
            visible(final(sink).out@) == visible(old(sink).out@) + visible(tk.texts_from(self.i as int, r.i as int)),
            r.i > self.i,
            r.i <= tk.len(),
            r.bounded(cap(self.i as int) + 8),
    {
        proof {
            reveal(word_step);
        }
        let i = self.i;
        let word = tk.text(i);
        let suppress_space_for_non_sealed = self.pending_non_sealed && text_is(&word, "sealed");
        let mut p = Printer { pending_non_sealed: false, annotation_inline_run_active: false, ..self };
        if is_switch_label(&word, &p.block_stack) {
            p = p.switch_label(sink, tk);
            return p;
        }
        p.word_text(sink, tk, word, suppress_space_for_non_sealed)
    }

    /// A word outside a switch label: written after a space where one is
    /// needed, then what it announces, the line break of an annotation that
    /// ends, and the break before a text block after `return`.
    #[verifier::rlimit(100)]
    fn word_text(self, sink: &mut Sink, tk: &Toks, word: Vec<char>, suppress: bool) -> (r: Printer)
        requires
            self.inv(tk),
            self.i < tk.len(),
            word@ == tk.texts@[self.i as int]@,
        ensures
            visible(final(sink).out@) == visible(old(sink).out@) + visible(tk.texts_from(self.i as int, r.i as int)),
            r.i == self.i + 1,
            r.bounded(cap(self.i as int) + 8),
            opt_view(r.prev_text) == Some(word@),
            r.prev_kind == Some(TokenKind::Word),
            r == after_annotation(tk, word_state(tk, self, r.prev_text)),
            ({
                let i = self.i as int;
                let w = word@;
                let tight = (opt_view(self.prev_text) matches Some(t) && closes_type_args(t))
                    && next_text_spec(tk, i + 1) == Some("("@);
                let spaced_out = if !suppress && !tight && space_needed(
                    opt_view(self.prev_text),
                    w,
                    old(sink).at_line_start,
                ) {
                    spaced(old(sink).out@, old(sink).at_line_start)
                } else {
                    old(sink).out@
                };
                let x = spaced_out + lead(old(sink).at_line_start, self.line_indent()) + w
                    + newline_if(self.module_clause_break(w));
                let text_block = w == "return"@ && i + 1 < tk.len() && tk.toks@[i + 1].kind
                    == TokenKind::StringLiteral && seq_starts_with(tk.texts@[i + 1]@, "\"\"\""@);
                final(sink).out@ == x + newline_if(text_block) || final(sink).out@ == x.push('\n')
                    + newline_if(text_block)
            }),
    {
        let i = self.i;
        if !suppress && !is_tight_after_generic_close(&self.prev_text, tk, i)
            && needs_space_before(&self.prev_text, &word, sink.at_line_start) {
            sink.space();
        }
        let current_indent = self.cur();
        sink.put(current_indent, &word);
        proof {
            lemma_texts_from_one(tk, i as int);
            lemma_keeps_previous(self, tk, word@, false);
        }
        let ghost before_note = sink.out@;
        let noted = self.note_word(sink, tk, &word);
        let ghost after_note = sink.out@;
        let p = Printer {
            i: i + 1,
            prev_text: Some(crate::text::copy_chars(&word)),
            prev_kind: Some(TokenKind::Word),
            ..noted
        };
        let ghost p3 = p;
        let r = p.word_tail(sink, tk, &word);
        proof {
            lemma_keeps_previous(p3, tk, word@, p3.annotation_keeps_inline(tk));
            assert(r.prev_text == p3.prev_text);
            assert(p3 == word_state(tk, self, r.prev_text));
            let text_block = word@ == "return"@ && i + 1 < tk.len() && tk.toks@[i + 1].kind
                == TokenKind::StringLiteral && seq_starts_with(tk.texts@[i + 1]@, "\"\"\""@);
            assert(sink.out@ == after_note + newline_if(text_block) || sink.out@
                == after_note.push('\n') + newline_if(text_block));
        }
        r
    }

    /// After a word: closes an annotation that ends there, and breaks the
    /// line before a text block after `return`.
    #[verifier::rlimit(60)]
    fn word_tail(self, sink: &mut Sink, tk: &Toks, word: &Vec<char>) -> (r: Printer)
        requires
            tk.wf(),
            self.indent <= usize::MAX / 8,
            1 <= self.i <= tk.len(),
        ensures
            r.prev_text == self.prev_text,
            r.prev_kind == self.prev_kind,
            r.i == self.i,
            r.keeps_bounds(self),
            r == after_annotation(tk, self),
            visible(final(sink).out@) == visible(old(sink).out@),
            ({
                let text_block = word@ == "return"@ && self.i < tk.len() && tk.toks@[self.i as int].kind
                    == TokenKind::StringLiteral && seq_starts_with(tk.texts@[self.i as int]@, "\"\"\""@);
                final(sink).out@ == old(sink).out@ + newline_if(text_block) || final(sink).out@
                    == old(sink).out@.push('\n') + newline_if(text_block)
            }),
    {
        let ghost after_note = sink.out@;
        let mut p = self;
        proof {
            lemma_keeps_previous(p, tk, word@, p.annotation_keeps_inline(tk));
        }
        if p.annotation_active && p.annotation_paren_depth == 0 {
            p = p.finish_annotation(sink, tk);
        }
        let ghost after_finish = sink.out@;
        assert(after_finish == after_note || after_finish == after_note.push('\n'));
        proof {
            reveal_strlit("\"\"\"");
        }
        let text_block = text_is(word, "return") && p.i < tk.count() && tk.kind(p.i)
            == TokenKind::StringLiteral && starts_with(&tk.texts[p.i], "\"\"\"");
        if text_block {
            let ghost before = sink.out@;
            sink.newline();
            proof {
                lemma_visible_push_layout(before, '\n');
            }
        }
        proof {
            assert(sink.out@ =~= after_finish + newline_if(text_block));
            assert(after_note.push('\n') + newline_if(text_block) =~= after_finish + newline_if(text_block) || after_note + newline_if(text_block) =~= after_finish + newline_if(text_block));
        }
        p
    }

    /// A string or character literal.
    #[verifier::rlimit(60)]
    fn literal(self, sink: &mut Sink, tk: &Toks) -> (r: Printer)
        requires
            self.inv(tk),
            self.i < tk.len(),
        ensures
            literal_step(tk, Snap { p: self, out: old(sink).out@, at: old(sink).at_line_start }, Snap { p: r, out: final(sink).out@, at: final(sink).at_line_start }),
            visible(final(sink).out@) == visible(old(sink).out@) + visible(tk.texts_from(self.i as int, r.i as int)),
            r.i == self.i + 1,
            r.bounded(cap(self.i as int) + 8),
    {
        proof {
            reveal(literal_step);
        }
        let i = self.i;
        let text = tk.text(i);
        if needs_space_before(&self.prev_text, &text, sink.at_line_start) {
            sink.space();
        }
        proof {
            reveal_strlit("\"\"\"");
        }
        if sink.at_line_start && starts_with(&text, "\"\"\"") {
            sink.push_text(&text);
        } else {
            let current_indent = self.cur();
            sink.put(current_indent, &text);
        }
        let kind = tk.kind(i);
        proof {
            lemma_texts_from_one(tk, i as int);
        }
        Printer { i: i + 1, annotation_inline_run_active: false, prev_text: Some(text), prev_kind: Some(kind), ..self }
    }

    /// Writes an operator with a space on either side.
    fn binary(&self, sink: &mut Sink, symbol: &[char])
        requires
            self.indent <= usize::MAX / 8,
        ensures
            visible(final(sink).out@) == visible(old(sink).out@) + visible(symbol@),
            final(sink).out@ == (spaced(old(sink).out@, old(sink).at_line_start) + lead(
                old(sink).at_line_start,
                self.line_indent(),
            ) + symbol@).push(' '),
            !final(sink).at_line_start,
    {
        sink.space();
        let current_indent = self.cur();
        sink.put(current_indent, symbol);
        sink.push_layout(' ');
    }

    /// Writes an operator with no space added around it.
    fn tight(&self, sink: &mut Sink, symbol: &[char])
        requires
            self.indent <= usize::MAX / 8,
        ensures
            visible(final(sink).out@) == visible(old(sink).out@) + visible(symbol@),
            final(sink).out@ == old(sink).out@ + lead(old(sink).at_line_start, self.line_indent())
                + symbol@,
            !final(sink).at_line_start,
    {
        let current_indent = self.cur();
        sink.put(current_indent, symbol);
    }

    /// Writes an operator after a space where one is needed.
    fn spaced_before(&self, sink: &mut Sink, symbol: &[char])
        requires
            self.indent <= usize::MAX / 8,
        ensures
            visible(final(sink).out@) == visible(old(sink).out@) + visible(symbol@),
            final(sink).out@ == (if space_needed(
                opt_view(self.prev_text),
                symbol@,
                old(sink).at_line_start,
            ) {
                spaced(old(sink).out@, old(sink).at_line_start)
            } else {
                old(sink).out@
            }) + lead(old(sink).at_line_start, self.line_indent()) + symbol@,
            !final(sink).at_line_start,
    {
        if needs_space_before(&self.prev_text, symbol, sink.at_line_start) {
            sink.space();
        }
        let current_indent = self.cur();
        sink.put(current_indent, symbol);
    }

    /// `@`: starts an annotation, on a new line unless it belongs inline.
    #[verifier::rlimit(60)]
    fn at_sign(self, sink: &mut Sink, tk: &Toks, next_text: &Option<Vec<char>>) -> (r: Printer)
        requires
            self.inv(tk),
        ensures
            visible(final(sink).out@) == visible(old(sink).out@) + visible("@"@),
            r.i == self.i,
            r.bounded(cap(self.i as int)),
    {
        let mut p = self;
        let annotation_declaration = opt_is(next_text, "interface");
        let in_type_body = p.in_type_body();
        if !sink.at_line_start {
            if p.paren_depth > 0 || annotation_declaration || p.annotation_inline_run_active
                || should_start_annotation_inline(&p.prev_text, in_type_body) {
                let at = vec_of("@");
                if needs_space_before(&p.prev_text, &at, sink.at_line_start) {
                    sink.space();
                }
            } else {
                sink.newline();
            }
        }
        p.annotation_started_line_start = sink.at_line_start;
        p.annotation_name = match next_text {
            Some(t) => if is_word_like_text(t) {
                Some(crate::text::copy_chars(t))
            } else {
                None
            },
            None => None,
        };
        let current_indent = p.cur();
        sink.put_str(current_indent, "@");
        if annotation_declaration {
            p.annotation_active = false;
            p.annotation_name = None;
        } else {
            p.annotation_active = true;
        }
        p.annotation_paren_depth = 0;
        p.annotation_brace_depth = 0;
        p.annotation_has_args = false;
        p.annotation_multiline_args_active = false;
        p.annotation_multiline_args_paren_depth = 0;
        p
    }

    /// The `{` at the current token opens a short inline block: no `}`
    /// follows it, and it is a short initializer after `]` or `=`, or it
    /// follows `(` inside annotation arguments.
    pub open spec fn opens_inline(&self, tk: &Toks, next: Option<Seq<char>>) -> bool {
        let prev = opt_view(self.prev_text);
        next != Some("}"@) && (((prev == Some("]"@) || prev == Some("="@)) && inline_brace_from(
            tk,
            self.i as int,
            0,
            0,
            0,
            false,
        )) || (self.annotation_active && prev == Some("("@)))
    }

    /// The block the current `{` opens: of the kind announced by the words
    /// before it, else inline, an initializer (after `]` or `=`) or a plain
    /// block; it spans lines unless it is empty or inline.
    pub open spec fn opened_frame(&self, tk: &Toks, next: Option<Seq<char>>) -> BlockFrame {
        let prev = opt_view(self.prev_text);
        let inline = self.opens_inline(tk, next);
        let kind = if self.pending_switch_block {
            BlockKind::Switch
        } else if self.pending_module_block {
            BlockKind::ModuleBody
        } else if self.pending_enum_block {
            BlockKind::EnumBody
        } else if self.pending_type_block {
            BlockKind::TypeBody
        } else if inline {
            BlockKind::Inline
        } else if prev == Some("]"@) || prev == Some("="@) {
            BlockKind::Initializer
        } else {
            BlockKind::Normal
        };
        BlockFrame {
            multiline: next != Some("}"@) && !inline,
            kind,
            in_switch_case: false,
            in_enum_constants: kind == BlockKind::EnumBody,
        }
    }

    /// `{`: opens a block of the kind that the preceding keywords announced.
    #[verifier::rlimit(60)]
    fn open_brace(self, sink: &mut Sink, tk: &Toks, consumed: usize, next_text: &Option<Vec<char>>) -> (r: Printer)
        requires
            self.inv(tk),
            self.i < tk.len(),
            self.i + consumed <= tk.len(),
            consumed >= 1,
        ensures
            visible(final(sink).out@) == visible(old(sink).out@) + visible("{"@),
            r.i == self.i,
            r.bounded(cap(self.i as int) + 1),
            ({
                let frame = self.opened_frame(tk, opt_view(*next_text));
                let out = old(sink).out@;
                let at = old(sink).at_line_start;
                &&& final(sink).out@ == open_brace_out(tk, self, out, at, opt_view(*next_text), consumed as int)
                &&& final(sink).at_line_start == frame.multiline
                &&& r.indent == if frame.multiline {
                    self.indent + 1
                } else {
                    self.indent as int
                }
                &&& r.block_stack@ == self.block_stack@.push(frame)
                &&& !r.pending_switch_block && !r.pending_type_block && !r.pending_enum_block
                    && !r.pending_module_block
            }),
    {
        let ghost out0 = sink.out@;
        let mut p = self;
        let i = p.i;
        let brace = vec_of("{");
        if needs_space_before(&p.prev_text, &brace, sink.at_line_start) {
            sink.space();
        }
        let current_indent = p.cur();
        sink.put(current_indent, &brace);
        if p.annotation_active && p.annotation_paren_depth > 0 {
            p.annotation_brace_depth = p.annotation_brace_depth + 1;
        }
        let is_empty = opt_is(next_text, "}");
        let initializer_brace = opt_is(&p.prev_text, "]") || opt_is(&p.prev_text, "=");
        let inline_brace = (is_inline_initializer_brace(tk, i, &p.prev_text) || (
        p.annotation_active && opt_is(&p.prev_text, "("))) && !is_empty;
        let kind = if p.pending_switch_block {
            BlockKind::Switch
        } else if p.pending_module_block {
            BlockKind::ModuleBody
        } else if p.pending_enum_block {
            BlockKind::EnumBody
        } else if p.pending_type_block {
            BlockKind::TypeBody
        } else if inline_brace {
            BlockKind::Inline
        } else if initializer_brace {
            BlockKind::Initializer
        } else {
            BlockKind::Normal
        };
        p.pending_switch_block = false;
        p.pending_type_block = false;
        p.pending_enum_block = false;
        p.pending_module_block = false;
        p.block_stack.push(
            BlockFrame {
                multiline: !is_empty && !inline_brace,
                kind,
                in_switch_case: false,
                in_enum_constants: kind == BlockKind::EnumBody,
            },
        );
        let ghost out1 = sink.out@;
        let mut blank = false;
        if !is_empty && !inline_brace {
            sink.newline();
            p.indent = p.indent + 1;
            if (kind == BlockKind::TypeBody || kind == BlockKind::EnumBody) && i + consumed
                < tk.count() && tk.gap_has_blank_line(i, i + consumed) {
                blank = true;
                sink.push_layout('\n');
            }
        }
        proof {
            let frame = self.opened_frame(tk, opt_view(*next_text));
            assert(frame.kind == kind);
            assert(frame.multiline == (!is_empty && !inline_brace));
            if frame.multiline {
                assert(sink.out@ =~= out1 + (seq!['\n'] + newline_if(blank)));
            } else {
                assert(sink.out@ =~= out1 + Seq::<char>::empty());
            }
        }
        p
    }

    /// The block a `}` closes: the innermost one, or a plain multi-line
    /// block when none is open.
    pub open spec fn closed_frame(&self) -> BlockFrame {
        if self.block_stack@.len() > 0 {
            self.block_stack@.last()
        } else {
            BlockFrame {
                multiline: true,
                kind: BlockKind::Normal,
                in_switch_case: false,
                in_enum_constants: false,
            }
        }
    }

    /// The open blocks once a `}` closes the innermost one.
    pub open spec fn stack_after_close(&self) -> Seq<BlockFrame> {
        if self.block_stack@.len() > 0 {
            self.block_stack@.drop_last()
        } else {
            self.block_stack@
        }
    }

    /// `}`: closes the innermost block.
    #[verifier::rlimit(100)]
    fn close_brace(self, sink: &mut Sink, next_text: &Option<Vec<char>>) -> (r: Printer)
        requires
            self.bounded((usize::MAX / 8) as int),
        ensures
            visible(final(sink).out@) == visible(old(sink).out@) + visible("}"@),
            r.i == self.i,
            r.keeps_bounds(self),
            ({
                let frame = self.closed_frame();
                let stack = self.stack_after_close();
                let out = old(sink).out@;
                let at = old(sink).at_line_start;
                let indent: int = if frame.multiline && self.indent > 0 {
                    self.indent - 1
                } else {
                    self.indent as int
                };
                let line = if stack.len() > 0 && stack.last().kind == BlockKind::Switch
                    && stack.last().in_switch_case {
                    indent + 1
                } else {
                    indent
                };
                let in_type_body = stack.len() > 0 && (stack.last().kind == BlockKind::TypeBody
                    || stack.last().kind == BlockKind::EnumBody);
                &&& final(sink).out@ == close_brace_out(self, out, at, opt_view(*next_text))
                &&& r.block_stack@ == stack
                &&& r.indent == if self.lambda_continuation_active && stack.len()
                    < self.lambda_continuation_base_block_depth {
                    self.lambda_continuation_base_indent as int
                } else {
                    indent
                }
            }),
    {
        let ghost out0 = sink.out@;
        let ghost at0 = sink.at_line_start;
        let mut p = self;
        let frame = match p.block_stack.pop() {
            Some(f) => f,
            None => BlockFrame {
                multiline: true,
                kind: BlockKind::Normal,
                in_switch_case: false,
                in_enum_constants: false,
            },
        };
        let annotation_brace_depth = if p.annotation_active && p.annotation_brace_depth > 0 {
            p.annotation_brace_depth - 1
        } else {
            p.annotation_brace_depth
        };
        let dedented = if frame.multiline && p.indent > 0 {
            p.indent - 1
        } else {
            p.indent
        };
        if frame.multiline && !sink.at_line_start {
            sink.newline();
        }
        let ghost out1 = sink.out@;
        let current_indent = active_indent(dedented, &p.block_stack);
        let brace = vec_of("}");
        sink.put(current_indent, &brace);
        let ghost out2 = sink.out@;
        let parent_is_type_body = p.in_type_body();
        sink.after_close_brace(next_text, frame.kind == BlockKind::Inline, parent_is_type_body);
        let lambda_reset = p.lambda_continuation_active && p.block_stack.len()
            < p.lambda_continuation_base_block_depth;
        let indent = if lambda_reset {
            p.lambda_continuation_base_indent
        } else {
            dedented
        };
        let pending_module_directive = if frame.kind == BlockKind::ModuleBody {
            None
        } else {
            p.pending_module_directive
        };
        proof {
            assert(frame == self.closed_frame());
            assert(p.block_stack@ == self.stack_after_close());
            assert(sink.out@ =~= out2 + close_brace_tail(
                opt_view(*next_text),
                frame.kind == BlockKind::Inline,
                parent_is_type_body,
            ));
        }
        Printer {
            annotation_brace_depth,
            indent,
            lambda_continuation_active: p.lambda_continuation_active && !lambda_reset,
            pending_module_directive,
            ..p
        }
    }

    /// A blank line stands in the source between token `i` and token `j`.
    pub open spec fn blank_between(tk: &Toks, i: int, j: int) -> bool {
        j < tk.len() && count_newlines(
            tk.source@.subrange(tk.toks@[i].end as int, tk.toks@[j].start as int),
        ) >= 2
    }

    /// The text after a statement that ends with tokens `i..i + consumed`:
    /// a newline; another where the source has a blank line there; another
    /// in a type body before a blank line or a method; another between
    /// module directives of different kinds; another after the package
    /// clause, and after the last import, before other code.
    #[verifier::opaque]
    pub open spec fn statement_line_text(
        &self,
        tk: &Toks,
        i: int,
        consumed: int,
        next_text: Option<Seq<char>>,
    ) -> Seq<char> {
        let next = i + consumed;
        let blank = Self::blank_between(tk, i, next);
        let member_break = self.in_type_body_spec() && (blank || (next_text != Some("}"@)
            && method_member_from(tk, next, 0, false)));
        let in_module_body = self.block_stack@.len() > 0 && self.block_stack@.last().kind
            == BlockKind::ModuleBody;
        let next_module = match next_directive_word(tk, next) {
            Some(w) => module_directive_of(w),
            None => None,
        };
        let module_break = in_module_body && next_text != Some("}"@) && (
        self.pending_module_directive matches Some(current) && next_module matches Some(n) && n
            != current);
        let next_top = match next_directive_word(tk, next) {
            Some(w) => top_level_directive_of(w),
            None => None,
        };
        let next_is_other = next_text is Some && next_text != Some("}"@);
        let top_break = self.block_stack@.len() == 0 && next_is_other && (
        self.pending_top_level_directive matches Some(current) && (current
            == TopLevelDirective::Package || next_top != Some(TopLevelDirective::Import)));
        seq!['\n'] + newline_if(blank) + newline_if(member_break) + newline_if(module_break)
            + newline_if(top_break)
    }

    /// The line break after a statement, and the blank lines that separate
    /// members, module directives and top-level directives.
    #[verifier::rlimit(60)]
    fn end_statement_line(
        self,
        sink: &mut Sink,
        tk: &Toks,
        i: usize,
        consumed: usize,
        next_text: &Option<Vec<char>>,
    ) -> (r: Printer)
        requires
            tk.wf(),
            i < tk.len(),
            i + consumed <= tk.len(),
            consumed >= 1,
        ensures
            visible(final(sink).out@) == visible(old(sink).out@),
            r.i == self.i,
            r.bounded_same(self),
            r == (Printer { pending_module_directive: None, pending_top_level_directive: None, ..self }),
            final(sink).out@ == old(sink).out@ + self.statement_line_text(
                tk,
                i as int,
                consumed as int,
                opt_view(*next_text),
            ),
            final(sink).at_line_start,
    {
        let ghost before = self;
        let ghost out0 = sink.out@;
        sink.newline();
        let has_blank_line_before_next = i + consumed < tk.count() && tk.gap_has_blank_line(
            i,
            i + consumed,
        );
        if has_blank_line_before_next {
            sink.push_layout('\n');
        }
        let ghost out1 = sink.out@;
        let in_type_body = self.in_type_body();
        let in_module_body = self.top_kind() == Some(BlockKind::ModuleBody);
        let member_break = in_type_body && (has_blank_line_before_next || (!opt_is(next_text, "}")
            && next_member_looks_like_method(tk, i + consumed)));
        if member_break {
            sink.push_layout('\n');
        }
        let ghost out2 = sink.out@;
        let mut module_break = false;
        if in_module_body && !opt_is(next_text, "}") {
            let next_directive = next_module_directive(tk, i + consumed);
            match self.pending_module_directive {
                Some(current_directive) => {
                    match next_directive {
                        Some(next) => {
                            if next != current_directive {
                                module_break = true;
                            }
                        },
                        None => {},
                    }
                },
                None => {},
            }
        }
        if module_break {
            sink.push_layout('\n');
        }
        let ghost out3 = sink.out@;
        let mut top_break = false;
        if self.block_stack.len() == 0 {
            match self.pending_top_level_directive {
                Some(current_directive) => {
                    let next_directive = next_top_level_directive(tk, i + consumed);
                    let next_is_other = next_text.is_some() && !opt_is(next_text, "}");
                    match current_directive {
                        TopLevelDirective::Package => {
                            if next_is_other {
                                top_break = true;
                            }
                        },
                        TopLevelDirective::Import => {
                            if next_directive != Some(TopLevelDirective::Import)
                                && next_is_other {
                                top_break = true;
                            }
                        },
                    }
                },
                None => {},
            }
        }
        if top_break {
            sink.push_layout('\n');
        }
        proof {
            reveal(Printer::statement_line_text);
            let t = before.statement_line_text(tk, i as int, consumed as int, opt_view(*next_text));
            assert(out1 =~= out0 + (seq!['\n'] + newline_if(has_blank_line_before_next)));
            assert(out2 =~= out1 + newline_if(member_break));
            assert(out3 =~= out2 + newline_if(module_break));
            assert(sink.out@ =~= out3 + newline_if(top_break));
            assert(sink.out@ =~= out0 + t);
        }
        Printer { pending_module_directive: None, pending_top_level_directive: None, ..self }
    }

    /// `;`: ends a statement or declaration, resetting the continuations that
    /// it ends and adding the blank lines that separate members and
    /// directives.
    #[verifier::rlimit(100)]
    fn semicolon(self, sink: &mut Sink, tk: &Toks, consumed: usize, next_text: &Option<Vec<char>>) -> (r: Printer)
        requires
            self.inv(tk),
            self.i < tk.len(),
            self.i + consumed <= tk.len(),
            consumed >= 1,
        ensures
            visible(final(sink).out@) == visible(old(sink).out@) + visible(";"@),
            r.i == self.i,
            r.bounded(cap(self.i as int) + 2),
            exists|tail: Seq<char>|
                final(sink).out@ == #[trigger] tight_text(
                    old(sink).out@,
                    old(sink).at_line_start,
                    self.line_indent(),
                    ";"@,
                ) + tail,
    {
        let mut p = self;
        let i = p.i;
        let current_indent = p.cur();
        let ghost out0 = sink.out@;
        let ghost at0 = sink.at_line_start;
        sink.put_str(current_indent, ";");
        let ghost w1 = sink.out@;
        assert(w1 == tight_text(out0, at0, self.line_indent(), ";"@));
        p.pending_switch_block = false;
        p.pending_type_block = false;
        p.pending_enum_block = false;
        p.pending_module_block = false;
        p.generic_depth = 0;
        if p.switch_arrow_comment_indent_active {
            p.indent = if p.indent >= 2 {
                p.indent - 2
            } else {
                0
            };
            p.switch_arrow_comment_indent_active = false;
        }
        if p.paren_depth == 0 {
            p.ternary_depth = 0;
            p.chain_continuation_active = false;
            p.chain_continuation_paren_depth = 0;
            p.chain_continuation_bracket_depth = 0;
            p.chain_continuation_dot_count = 0;
            p.chain_keep_leading_dots = 0;
            if p.call_args_continuation_active {
                p.indent = p.call_args_continuation_base_indent;
                p.call_args_continuation_active = false;
                p.call_args_continuation_paren_depth = 0;
                p.call_args_comment_mode = false;
                p.call_args_vertical_mode = false;
            }
            let n = p.block_stack.len();
            if n > 0 {
                let mut frame = p.block_stack[n - 1];
                if frame.kind == BlockKind::EnumBody && frame.in_enum_constants {
                    frame.in_enum_constants = false;
                    p.block_stack.set(n - 1, frame);
                }
            }
        }
        if p.lambda_continuation_active && p.block_stack.len()
            == p.lambda_continuation_base_block_depth {
            p.indent = p.lambda_continuation_base_indent;
            p.lambda_continuation_active = false;
        }
        if p.module_continuation_active && p.paren_depth == 0 {
            p.indent = p.module_continuation_base_indent;
            p.module_continuation_active = false;
        }
        if p.paren_depth == 0 {
            p = p.end_statement_line(sink, tk, i, consumed, next_text);
            assert(sink.out@ =~= w1 + sink.out@.subrange(w1.len() as int, sink.out@.len() as int));
        } else {
            if p.try_resource_paren_depth > 0 && p.paren_depth
                == p.try_resource_paren_depth {
                if opt_is(next_text, ")") {
                    sink.push_layout(' ');
                    assert(sink.out@ =~= w1 + sink.out@.subrange(w1.len() as int, sink.out@.len() as int));
                } else {
                    sink.newline();
                    assert(sink.out@ =~= w1 + sink.out@.subrange(w1.len() as int, sink.out@.len() as int));
                    if !p.try_resource_continuation_active {
                        p.try_resource_continuation_active = true;
                        p.try_resource_continuation_base_indent = p.indent;
                        p.indent = p.indent + 2;
                    }
                }
            } else {
                sink.push_layout(' ');
                assert(sink.out@ =~= w1 + sink.out@.subrange(w1.len() as int, sink.out@.len() as int));
            }
        }
        p
    }

    /// `,`: a line break in enum constants, module clauses, broken annotation
    /// arguments and broken call arguments; a space elsewhere.
    #[verifier::rlimit(60)]
    fn comma(self, sink: &mut Sink) -> (r: Printer)
        requires
            self.indent <= usize::MAX / 8,
        ensures
            visible(final(sink).out@) == visible(old(sink).out@) + visible(","@),
            r.i == self.i,
            r.bounded_same(self),
            final(sink).out@ == tight_text(
                old(sink).out@,
                old(sink).at_line_start,
                self.line_indent(),
                ","@,
            ).push(' ') || final(sink).out@ == tight_text(
                old(sink).out@,
                old(sink).at_line_start,
                self.line_indent(),
                ","@,
            ).push('\n'),
    {
        let mut p = self;
        let current_indent = p.cur();
        sink.put_str(current_indent, ",");
        let n = p.block_stack.len();
        let enum_constants_comma = n > 0 && p.block_stack[n - 1].kind == BlockKind::EnumBody
            && p.block_stack[n - 1].in_enum_constants && p.paren_depth == 0;
        let annotation_args_comma = p.annotation_multiline_args_active && p.paren_depth
            == p.annotation_multiline_args_paren_depth && p.annotation_paren_depth == 1
            && p.annotation_brace_depth == 0;
        let not_initializer = n == 0 || p.block_stack[n - 1].kind != BlockKind::Initializer;
        let long_line = match current_output_line(&sink.out) {
            Some(line) => line.len() >= 60,
            None => false,
        };
        let call_args_comma = p.call_args_continuation_active && p.paren_depth
            == p.call_args_continuation_paren_depth && not_initializer && (
        p.call_args_comment_mode || p.call_args_vertical_mode || long_line);
        if enum_constants_comma || (p.module_continuation_active && p.paren_depth == 0)
            || annotation_args_comma || call_args_comma {
            sink.newline();
        } else {
            sink.push_layout(' ');
        }
        p
    }

    /// `(`: may break after itself to wrap call or annotation arguments.
    #[verifier::rlimit(60)]
    fn open_paren(self, sink: &mut Sink, tk: &Toks, consumed: usize) -> (r: Printer)
        requires
            self.inv(tk),
            self.i < tk.len(),
            self.i + consumed <= tk.len(),
            consumed >= 1,
        ensures
            visible(final(sink).out@) == visible(old(sink).out@) + visible("("@),
            r.i == self.i,
            r.bounded(cap(self.i as int) + 7),
    {
        let mut p = self;
        let i = p.i;
        if needs_space_before_open_paren(&p.prev_text) {
            sink.space();
        }
        let current_indent = p.cur();
        sink.put_str(current_indent, "(");
        let explicit_type_argument_call = is_explicit_type_argument_call(tk, i);
        let wrappable_invocation_open_paren = !explicit_type_argument_call
            && is_wrappable_invocation_open_paren(tk, i, p.prev_kind, &p.prev_text);
        let metrics = if explicit_type_argument_call || wrappable_invocation_open_paren {
            call_arguments_break_metrics(tk, i + consumed)
        } else {
            None
        };
        let should_break_after_open_paren = match &metrics {
            Some(m) => if explicit_type_argument_call {
                m.should_break_short()
            } else {
                wrappable_invocation_open_paren && m.should_break_long()
            },
            None => false,
        };
        let dot_continuation_call = match current_output_line(&sink.out) {
            Some(line) => {
                let trimmed = crate::text::trim_start_chars(&line);
                starts_with(&trimmed, ".")
            },
            None => false,
        };
        p.paren_depth = p.paren_depth + 1;
        if opt_is(&p.prev_text, "try") {
            p.try_resource_paren_depth = p.paren_depth;
        }
        if p.annotation_active {
            if p.annotation_paren_depth == 0 {
                p.annotation_has_args = true;
            }
            p.annotation_paren_depth = p.annotation_paren_depth + 1;
            if p.annotation_paren_depth == 1 && should_break_annotation_arguments(
                tk,
                i + consumed,
            ) {
                sink.newline();
                if !p.annotation_multiline_args_active {
                    p.annotation_multiline_args_active = true;
                    p.annotation_multiline_args_paren_depth = p.paren_depth;
                    p.annotation_multiline_base_indent = p.indent;
                    p.indent = p.indent + 2;
                }
            }
        }
        if should_break_after_open_paren {
            sink.newline();
            if !p.call_args_continuation_active {
                p.call_args_continuation_active = true;
                p.call_args_continuation_paren_depth = p.paren_depth;
                p.call_args_continuation_base_indent = p.indent;
                p.call_args_comment_mode = match &metrics {
                    Some(m) => m.has_comment(),
                    None => false,
                };
                p.call_args_vertical_mode = match &metrics {
                    Some(m) => m.should_force_vertical(),
                    None => false,
                };
                p.indent = p.indent + if dot_continuation_call {
                    4
                } else {
                    2
                };
            }
        }
        p
    }

    /// `)`: closes a parenthesis, restoring the indentation of any
    /// continuation that it ends.
    #[verifier::rlimit(100)]
    fn close_paren(self, sink: &mut Sink) -> (r: Printer)
        requires
            self.bounded((usize::MAX / 8) as int),
        ensures
            visible(final(sink).out@) == visible(old(sink).out@) + visible(")"@),
            r.i == self.i,
            r.keeps_bounds(self),
            exists|k: int| final(sink).out@ == #[trigger] tight_text(
                old(sink).out@,
                old(sink).at_line_start,
                k,
                ")"@,
            ),
    {
        let mut p = self;
        let closes_try_resource_paren = p.try_resource_paren_depth > 0 && p.paren_depth
            == p.try_resource_paren_depth;
        let closes_annotation_multiline_args = p.annotation_multiline_args_active
            && p.paren_depth == p.annotation_multiline_args_paren_depth;
        let closes_call_args_continuation = p.call_args_continuation_active && p.paren_depth
            == p.call_args_continuation_paren_depth;
        if closes_annotation_multiline_args {
            p.indent = p.annotation_multiline_base_indent;
        }
        if closes_call_args_continuation {
            p.indent = p.call_args_continuation_base_indent;
        }
        let current_indent = p.cur();
        let ghost out0 = sink.out@;
        let ghost at0 = sink.at_line_start;
        sink.put_str(current_indent, ")");
        let ghost w1 = sink.out@;
        assert(w1 == tight_text(out0, at0, current_indent as int, ")"@));
        p.paren_depth = if p.paren_depth > 0 {
            p.paren_depth - 1
        } else {
            0
        };
        if closes_try_resource_paren {
            p.try_resource_paren_depth = 0;
            if p.try_resource_continuation_active {
                p.indent = p.try_resource_continuation_base_indent;
                p.try_resource_continuation_active = false;
            }
        }
        if p.annotation_active && p.annotation_paren_depth > 0 {
            p.annotation_paren_depth = p.annotation_paren_depth - 1;
        }
        if closes_annotation_multiline_args {
            p.annotation_multiline_args_active = false;
            p.annotation_multiline_args_paren_depth = 0;
        }
        if closes_call_args_continuation {
            p.call_args_continuation_active = false;
            p.call_args_continuation_paren_depth = 0;
            p.call_args_comment_mode = false;
            p.call_args_vertical_mode = false;
        }
        assert(sink.out@ == tight_text(out0, at0, current_indent as int, ")"@));
        p
    }

    /// `.`, `[`, `]` and `::`: a chain `.` may start a new line.
    #[verifier::rlimit(60)]
    fn member_access(self, sink: &mut Sink, tk: &Toks, sym: Sym, symbol: &[char], consumed: usize) -> (r: Printer)
        requires
            self.inv(tk),
            self.i < tk.len(),
            self.i + consumed <= tk.len(),
            consumed >= 1,
        ensures
            visible(final(sink).out@) == visible(old(sink).out@) + visible(symbol@),
            r.i == self.i,
            r.bounded(cap(self.i as int) + 1),
    {
        let mut p = self;
        let i = p.i;
        let top_level_chain_dot = sym == Sym::Dot && p.chain_continuation_active
            && p.paren_depth == p.chain_continuation_paren_depth && p.bracket_depth
            == p.chain_continuation_bracket_depth;
        if top_level_chain_dot {
            if p.chain_continuation_dot_count >= p.chain_keep_leading_dots {
                sink.newline();
            }
            p.chain_continuation_dot_count = p.chain_continuation_dot_count + 1;
        } else if sym == Sym::Dot && opt_is(&p.prev_text, ")") {
            let chained = (p.lambda_continuation_active || p.chain_continuation_active)
                && should_break_before_chained_dot(&sink.out);
            if chained || next_dotted_member_call_breaks(tk, i + consumed) {
                sink.newline();
            }
        }
        let current_indent = p.cur();
        let extra_indent: usize = if sym == Sym::Dot && (p.lambda_continuation_active
            || p.chain_continuation_active || opt_is(&p.prev_text, ")"))
            && sink.at_line_start {
            2
        } else {
            0
        };
        sink.put(current_indent + extra_indent, symbol);
        if sym == Sym::LBracket {
            p.bracket_depth = p.bracket_depth + 1;
        } else if sym == Sym::RBracket {
            p.bracket_depth = if p.bracket_depth > 0 {
                p.bracket_depth - 1
            } else {
                0
            };
        }
        p
    }

    /// `=`: breaks before a block lambda or a long right-hand side.
    #[verifier::rlimit(60)]
    fn assign(self, sink: &mut Sink, tk: &Toks, consumed: usize) -> (r: Printer)
        requires
            self.inv(tk),
            self.i < tk.len(),
            self.i + consumed <= tk.len(),
            consumed >= 1,
        ensures
            visible(final(sink).out@) == visible(old(sink).out@) + visible("="@),
            r.i == self.i,
            r.bounded(cap(self.i as int) + 2),
    {
        let mut p = self;
        let i = p.i;
        sink.space();
        let current_indent = p.cur();
        sink.put_str(current_indent, "=");
        if rhs_on_new_line(tk, i + consumed) {
            sink.newline();
            match chain_continuation_metrics(tk, i + consumed) {
                Some(metrics) => {
                    p.chain_continuation_active = true;
                    p.chain_continuation_paren_depth = p.paren_depth;
                    p.chain_continuation_bracket_depth = p.bracket_depth;
                    p.chain_continuation_dot_count = 0;
                    p.chain_keep_leading_dots = metrics.keep_leading_dots;
                },
                None => {},
            }
            if !p.lambda_continuation_active {
                p.lambda_continuation_active = true;
                p.lambda_continuation_base_indent = p.indent;
                p.lambda_continuation_base_block_depth = p.block_stack.len();
                p.indent = p.indent + 2;
            }
        } else {
            sink.push_layout(' ');
        }
        p
    }

    /// `+` and `-`: tight in exponents and as prefix operators, spaced as
    /// binary operators; `-` joins `non-sealed`.
    #[verifier::rlimit(60)]
    fn plus_minus(self, sink: &mut Sink, sym: Sym, symbol: &[char], next_text: &Option<Vec<char>>) -> (r: Printer)
        requires
            self.indent <= usize::MAX / 8,
        ensures
            visible(final(sink).out@) == visible(old(sink).out@) + visible(symbol@),
            r.i == self.i,
            r.bounded_same(self),
            final(sink).out@ == plus_minus_text(
                old(sink).out@,
                old(sink).at_line_start,
                self.line_indent(),
                sym,
                opt_view(self.prev_text),
                opt_view(*next_text),
                symbol@,
            ),
            r.generic_depth == self.generic_depth,
    {
        let mut p = self;
        if sym == Sym::Minus && opt_is(&p.prev_text, "non") && opt_is(next_text, "sealed") {
            p.tight(sink, symbol);
            p.pending_non_sealed = true;
        } else if is_exponent_sign_context(&p.prev_text, next_text) {
            p.tight(sink, symbol);
        } else if is_unary_prefix_context(&p.prev_text) {
            p.spaced_before(sink, symbol);
        } else {
            p.binary(sink, symbol);
        }
        p
    }

    /// `:`: a ternary branch, a statement label, or spaced on both sides.
    #[verifier::rlimit(60)]
    fn colon(self, sink: &mut Sink, next_text: &Option<Vec<char>>) -> (r: Printer)
        requires
            self.indent <= usize::MAX / 8,
        ensures
            visible(final(sink).out@) == visible(old(sink).out@) + visible(":"@),
            r.i == self.i,
            r.keeps_bounds(self),
            final(sink).out@ == binary_text(
                old(sink).out@,
                old(sink).at_line_start,
                self.line_indent(),
                ":"@,
            ) || final(sink).out@ == tight_text(
                old(sink).out@,
                old(sink).at_line_start,
                self.line_indent(),
                ":"@,
            ).push('\n'),
            self.ternary_depth > 0 ==> final(sink).out@ == binary_text(
                old(sink).out@,
                old(sink).at_line_start,
                self.line_indent(),
                ":"@,
            ),
    {
        let mut p = self;
        let colon = vec_of(":");
        if p.ternary_depth > 0 {
            p.binary(sink, &colon);
            p.ternary_depth = p.ternary_depth - 1;
        } else if is_label_colon_context(
            p.prev_kind,
            &p.prev_text,
            next_text,
            p.paren_depth,
        ) {
            p.tight(sink, &colon);
            sink.newline();
        } else {
            p.binary(sink, &colon);
        }
        p
    }

    /// Any symbol token (with the tokens of a compound operator).
    #[verifier::rlimit(100)]
    #[verifier::spinoff_prover]
    fn symbol(self, sink: &mut Sink, tk: &Toks) -> (r: Printer)
        requires
            self.inv(tk),
            self.i < tk.len(),
        ensures
            symbol_step(tk, Snap { p: self, out: old(sink).out@, at: old(sink).at_line_start }, Snap { p: r, out: final(sink).out@, at: final(sink).at_line_start }),
            visible(final(sink).out@) == visible(old(sink).out@) + visible(tk.texts_from(self.i as int, r.i as int)),
            r.i > self.i,
            r.i <= tk.len(),
            r.bounded(cap(self.i as int) + 8),
    {
        proof {
            reveal(symbol_step);
        }
        let mut p = self;
        let i = p.i;
        let (symbol, consumed) = read_symbol(tk, i);
        let sym = classify_symbol(&symbol);
        proof {
            lemma_symbol_text(tk, i as int);
        }
        let next_text = next_symbol_text(tk, i + consumed);
        if is_simple_symbol(sym) {
            return p.symbol_simple(sink, tk, symbol, consumed, sym, &next_text);
        }
        let ghost out0 = sink.out@;
        let ghost at0 = sink.at_line_start;
        let ghost b = cap(i as int) + 8;
        p = p.symbol_write(sink, tk, sym, &symbol, consumed, &next_text);
        let ghost w = sink.out@;
        let ghost depth = p.generic_depth;
        p.prev_text = Some(symbol);
        p.prev_kind = Some(TokenKind::Symbol);
        p.i = i + consumed;
        assert(p.bounded(b));
        proof {
            lemma_keeps_previous(p, tk, Seq::empty(), p.annotation_keeps_inline(tk));
        }
        if p.annotation_active && p.annotation_paren_depth == 0 && sym != Sym::At && sym
            != Sym::Dot {
            p = p.finish_annotation(sink, tk);
        }
        assert(with_optional_break(sink.out@, w));
        assert(p.generic_depth == depth);
        proof {
            assert(with_optional_break(sink.out@, w) && symbol_written(
                tk,
                self,
                out0,
                at0,
                w,
                p.generic_depth as int,
            ));
            let a = Snap { p: self, out: out0, at: at0 };
            let bb = Snap { p, out: sink.out@, at: sink.at_line_start };
            assert(symbol_written(tk, a.p, a.out, a.at, w, bb.p.generic_depth as int));
            assert(exists|w2: Seq<char>|
                with_optional_break(bb.out, w2) && #[trigger] symbol_written(
                    tk,
                    a.p,
                    a.out,
                    a.at,
                    w2,
                    bb.p.generic_depth as int,
                ));
            assert(symbol_step(tk, a, bb));
        }
        p
    }

    /// An operator of a `simple_symbol` kind: written by `simple_write`,
    /// then the state moves past it and an annotation that ends is closed.
    #[verifier::spinoff_prover]
    #[verifier::rlimit(60)]
    fn symbol_simple(
        self,
        sink: &mut Sink,
        tk: &Toks,
        symbol: Vec<char>,
        consumed: usize,
        sym: Sym,
        next_text: &Option<Vec<char>>,
    ) -> (r: Printer)
        requires
            self.inv(tk),
            self.i < tk.len(),
            1 <= consumed,
            self.i + consumed <= tk.len(),
            symbol@ == symbol_at(tk, self.i as int).0,
            consumed == symbol_at(tk, self.i as int).1,
            symbol@ == tk.texts_from(self.i as int, self.i + consumed),
            sym == sym_of(symbol@),
            opt_view(*next_text) == next_text_spec(tk, self.i + consumed),
            simple_symbol(sym),
        ensures
            symbol_step(tk, Snap { p: self, out: old(sink).out@, at: old(sink).at_line_start }, Snap { p: r, out: final(sink).out@, at: final(sink).at_line_start }),
            visible(final(sink).out@) == visible(old(sink).out@) + visible(tk.texts_from(self.i as int, r.i as int)),
            r.i > self.i,
            r.i <= tk.len(),
            r.bounded(cap(self.i as int) + 8),
    {
        proof {
            reveal(symbol_step);
        }
        let ghost out0 = sink.out@;
        let ghost at0 = sink.at_line_start;
        let i = self.i;
        let (g, t) = self.simple_write(sink, tk, sym, &symbol, consumed, next_text);
        let ghost w = sink.out@;
        let p = Printer {
            prev_text: Some(symbol),
            prev_kind: Some(TokenKind::Symbol),
            i: i + consumed,
            ..Printer { annotation_inline_run_active: false, generic_depth: g, ternary_depth: t, ..self }
        };
        let ghost pre = p;
        assert(p.bounded(cap(i as int) + 8));
        let r = p.symbol_finish(sink, tk, sym);
        proof {
            let a = Snap { p: self, out: out0, at: at0 };
            let bb = Snap { p: r, out: sink.out@, at: sink.at_line_start };
            assert(pre == simple_symbol_state(tk, self, r.prev_text, r.generic_depth, r.ternary_depth));
            assert(symbol_written(tk, a.p, a.out, a.at, w, bb.p.generic_depth as int));
            assert(bb.out =~= w + newline_if(annotation_breaks(tk, pre, false)));
            assert(exists|w2: Seq<char>|
                with_optional_break(bb.out, w2) && #[trigger] symbol_written(
                    tk,
                    a.p,
                    a.out,
                    a.at,
                    w2,
                    bb.p.generic_depth as int,
                ));
        }
        r
    }

    /// After an operator other than `@` and `.`: closes an annotation that
    /// ends there.
    #[verifier::rlimit(60)]
    fn symbol_finish(self, sink: &mut Sink, tk: &Toks, sym: Sym) -> (r: Printer)
        requires
            tk.wf(),
            self.indent <= usize::MAX / 8,
        ensures
            r.prev_text == self.prev_text,
            r.prev_kind == self.prev_kind,
            r.generic_depth == self.generic_depth,
            r.ternary_depth == self.ternary_depth,
            r.i == self.i,
            r.keeps_bounds(self),
            visible(final(sink).out@) == visible(old(sink).out@),
            with_optional_break(final(sink).out@, old(sink).out@),
            sym != Sym::At && sym != Sym::Dot ==> r == after_annotation(tk, self)
                && final(sink).at_line_start == (old(sink).at_line_start || annotation_breaks(
                tk,
                self,
                old(sink).at_line_start,
            )) && final(sink).out@ == old(sink).out@ + newline_if(
                annotation_breaks(tk, self, old(sink).at_line_start),
            ),
    {
        proof {
            lemma_keeps_previous(self, tk, Seq::empty(), self.annotation_keeps_inline(tk));
        }
        if self.annotation_active && self.annotation_paren_depth == 0 && sym != Sym::At && sym
            != Sym::Dot {
            self.finish_annotation(sink, tk)
        } else {
            self
        }
    }

    /// Writes an operator of a `simple_symbol` kind and gives the depths of
    /// type arguments and of conditional expressions after it.
    #[verifier::spinoff_prover]
    #[verifier::rlimit(60)]
    fn simple_write(
        &self,
        sink: &mut Sink,
        tk: &Toks,
        sym: Sym,
        symbol: &Vec<char>,
        consumed: usize,
        next_text: &Option<Vec<char>>,
    ) -> (r: (usize, usize))
        requires
            self.inv(tk),
            self.i < tk.len(),
            1 <= consumed,
            self.i + consumed <= tk.len(),
            symbol@ == symbol_at(tk, self.i as int).0,
            consumed == symbol_at(tk, self.i as int).1,
            sym == sym_of(symbol@),
            opt_view(*next_text) == next_text_spec(tk, self.i + consumed),
            simple_symbol(sym),
        ensures
            visible(final(sink).out@) == visible(old(sink).out@) + visible(symbol@),
            !final(sink).at_line_start,
            r.0 <= self.generic_depth + 1,
            r.1 == self.ternary_depth + (if sym == Sym::Question {
                1int
            } else {
                0int
            }),
            symbol_written(
                tk,
                *self,
                old(sink).out@,
                old(sink).at_line_start,
                final(sink).out@,
                r.0 as int,
            ),
    {
        proof {
            reveal(symbol_written);
        }
        let i = self.i;
        let mut g = self.generic_depth;
        let mut t = self.ternary_depth;
        if sym == Sym::Question {
            self.binary(sink, symbol);
            t = t + 1;
        } else if sym == Sym::PlusPlus || sym == Sym::MinusMinus || sym == Sym::Ellipsis {
            self.tight(sink, symbol);
        } else if sym == Sym::Bang || sym == Sym::Tilde || sym == Sym::Other {
            self.spaced_before(sink, symbol);
        } else if sym == Sym::Lt {
            if is_generic_open_angle(
                tk,
                i,
                self.prev_kind,
                &self.prev_text,
                next_text,
                sink.at_line_start,
            ) {
                self.tight(sink, symbol);
                g = g + 1;
            } else {
                self.binary(sink, symbol);
            }
        } else if sym == Sym::Gt {
            if g >= 1 {
                self.tight(sink, symbol);
                g = g - 1;
            } else {
                self.binary(sink, symbol);
            }
        } else if sym == Sym::GtGt {
            if g >= 2 {
                self.tight(sink, symbol);
                g = g - 2;
            } else {
                self.binary(sink, symbol);
            }
        } else if sym == Sym::GtGtGt {
            if g >= 3 {
                self.tight(sink, symbol);
                g = g - 3;
            } else {
                self.binary(sink, symbol);
            }
        } else {
            self.binary(sink, symbol);
        }
        (g, t)
    }

    /// Writes the operator at `self.i`, of kind `sym`, with its layout,
    /// leaving `i` where it is.
    #[verifier::spinoff_prover]
    #[verifier::rlimit(50)]
    fn symbol_write(
        self,
        sink: &mut Sink,
        tk: &Toks,
        sym: Sym,
        symbol: &Vec<char>,
        consumed: usize,
        next_text: &Option<Vec<char>>,
    ) -> (r: Printer)
        requires
            self.inv(tk),
            self.i < tk.len(),
            1 <= consumed,
            self.i + consumed <= tk.len(),
            symbol@ == symbol_at(tk, self.i as int).0,
            consumed == symbol_at(tk, self.i as int).1,
            symbol@ == tk.texts_from(self.i as int, self.i + consumed),
            sym == sym_of(symbol@),
            opt_view(*next_text) == next_text_spec(tk, self.i + consumed),
        ensures
            visible(final(sink).out@) == visible(old(sink).out@) + visible(symbol@),
            r.i == self.i,
            r.bounded(cap(self.i as int) + 8),
            symbol_written(
                tk,
                self,
                old(sink).out@,
                old(sink).at_line_start,
                final(sink).out@,
                r.generic_depth as int,
            ),
    {
        proof {
            reveal(symbol_written);
        }
        let mut p = if sym != Sym::At {
            Printer { annotation_inline_run_active: false, ..self }
        } else {
            self
        };
        let i = p.i;
        let ghost out0 = sink.out@;
        let ghost b = cap(i as int) + 8;
        match sym {
            Sym::At => {
                p = p.at_sign(sink, tk, next_text);
            },
            Sym::LBrace => {
                p = p.open_brace(sink, tk, consumed, next_text);
            },
            Sym::RBrace => {
                p = p.close_brace(sink, next_text);
                assert(p.bounded(b));
            },
            Sym::Semi => {
                let ghost pb = p;
                let ghost o = sink.out@;
                let ghost a = sink.at_line_start;
                p = p.semicolon(sink, tk, consumed, next_text);
                proof {
                    assert(pb.line_indent() == self.line_indent());
                    let tail = choose|tail: Seq<char>|
                        sink.out@ == #[trigger] tight_text(o, a, pb.line_indent(), ";"@) + tail;
                    assert(sink.out@ == tight_text(o, a, self.line_indent(), ";"@) + tail);
                }
            },
            Sym::Comma => {
                p = p.comma(sink);
            },
            Sym::LParen => {
                p = p.open_paren(sink, tk, consumed);
            },
            Sym::RParen => {
                p = p.close_paren(sink);
                assert(p.bounded(b));
            },
            Sym::Dot | Sym::LBracket | Sym::RBracket | Sym::ColonColon => {
                p = p.member_access(sink, tk,
                sym,
                symbol,
                consumed,
            );
            },
            Sym::PlusPlus | Sym::MinusMinus | Sym::Ellipsis => {
                p.tight(sink, symbol);
            },
            Sym::Plus | Sym::Minus => {
                p = p.plus_minus(sink, sym, symbol, next_text);
            },
            Sym::Assign => {
                p = p.assign(sink, tk, consumed);
            },
            Sym::Bang | Sym::Tilde => {
                p.spaced_before(sink, symbol);
            },
            Sym::Question => {
                p.binary(sink, symbol);
                p.ternary_depth = p.ternary_depth + 1;
            },
            Sym::Colon => {
                p = p.colon(sink, next_text);
                assert(p.bounded(b));
            },
            Sym::PlusEq | Sym::MinusEq | Sym::StarEq | Sym::SlashEq | Sym::PercentEq | Sym::AmpEq
            | Sym::PipeEq | Sym::CaretEq | Sym::EqEq | Sym::BangEq | Sym::LtEq | Sym::GtEq
            | Sym::AmpAmp | Sym::PipePipe | Sym::Star | Sym::Slash | Sym::Percent | Sym::Amp
            | Sym::Pipe | Sym::Caret | Sym::Arrow | Sym::LtLt | Sym::LtLtEq | Sym::GtGtEq
            | Sym::GtGtGtEq => {
                p.binary(sink, symbol);
            },
            Sym::Lt => {
                let generic_like = is_generic_open_angle(
                    tk,
                    i,
                    p.prev_kind,
                    &p.prev_text,
                    next_text,
                    sink.at_line_start,
                );
                if generic_like {
                    p.tight(sink, symbol);
                    p.generic_depth = p.generic_depth + 1;
                } else {
                    p.binary(sink, symbol);
                }
            },
            Sym::Gt => {
                if p.generic_depth >= 1 {
                    p.tight(sink, symbol);
                    p.generic_depth = p.generic_depth - 1;
                } else {
                    p.binary(sink, symbol);
                }
            },
            Sym::GtGt => {
                if p.generic_depth >= 2 {
                    p.tight(sink, symbol);
                    p.generic_depth = p.generic_depth - 2;
                } else {
                    p.binary(sink, symbol);
                }
            },
            Sym::GtGtGt => {
                if p.generic_depth >= 3 {
                    p.tight(sink, symbol);
                    p.generic_depth = p.generic_depth - 3;
                } else {
                    p.binary(sink, symbol);
                }
            },
            Sym::Other => {
                p.spaced_before(sink, symbol);
            },
        }
        assert(p.bounded(b));
        p
    }
}

/// What printing one token guarantees: the step is one of the printer's
/// steps, it moves past the token, keeps the counters in range, and shows
/// the token's visible text (a block comment's, as normalized).
#[verifier::opaque]
pub open spec fn step_done(tk: &Toks, a: Snap, b: Snap) -> bool {
    let i = a.p.i as int;
    let kind = tk.toks@[i].kind;
    &&& token_step(tk, a, b)
    &&& b.p.i > a.p.i
    &&& b.p.i <= tk.len()
    &&& b.p.bounded(cap(i) + 8)
    &&& (kind != TokenKind::BlockComment && kind != TokenKind::Whitespace && kind
        != TokenKind::Newline) ==> visible(b.out) == visible(a.out) + visible(
        tk.texts_from(i, b.p.i as int),
    )
    &&& kind == TokenKind::BlockComment ==> b.p.i == i + 1 && exists|n: nat|
        visible(b.out) == visible(a.out) + visible(
            #[trigger] spec_normalize_block_comment(tk.texts@[i]@, n),
        )
    &&& (kind == TokenKind::BlockComment && comments_keep_text(tk)) ==> visible(b.out) == visible(
        a.out,
    ) + visible(tk.texts_from(i, b.p.i as int))
    &&& (kind == TokenKind::Whitespace || kind == TokenKind::Newline) ==> b.p.i == i + 1 && b.out
        == a.out
}

/// Prints the token at `p.i` by its kind and returns the printer after it.
fn print_step(p: Printer, sink: &mut Sink, tk: &Toks) -> (r: Printer)
    requires
        p.inv(tk),
        p.i < tk.len(),
    ensures
        step_done(
            tk,
            Snap { p, out: old(sink).out@, at: old(sink).at_line_start },
            Snap { p: r, out: final(sink).out@, at: final(sink).at_line_start },
        ),
{
    let kind = tk.kind(p.i);
    if kind == TokenKind::Word || kind == TokenKind::Symbol || kind == TokenKind::StringLiteral
        || kind == TokenKind::CharLiteral {
        print_code_token(p, sink, tk)
    } else if kind == TokenKind::LineComment || kind == TokenKind::BlockComment {
        print_comment_token(p, sink, tk)
    } else {
        print_layout_token(p, sink, tk)
    }
}

/// Steps over a space or a line break of the input: nothing is written.
fn print_layout_token(p: Printer, sink: &mut Sink, tk: &Toks) -> (r: Printer)
    requires
        p.inv(tk),
        p.i < tk.len(),
        tk.toks@[p.i as int].kind == TokenKind::Whitespace || tk.toks@[p.i as int].kind
            == TokenKind::Newline,
    ensures
        step_done(
            tk,
            Snap { p, out: old(sink).out@, at: old(sink).at_line_start },
            Snap { p: r, out: final(sink).out@, at: final(sink).at_line_start },
        ),
{
    proof {
        reveal(step_done);
        reveal(token_step);
        lemma_cap(p.i + 1);
    }
    Printer { i: p.i + 1, ..p }
}

/// Prints a word, an operator or a literal.
fn print_code_token(p: Printer, sink: &mut Sink, tk: &Toks) -> (r: Printer)
    requires
        p.inv(tk),
        p.i < tk.len(),
        ({
            let kind = tk.toks@[p.i as int].kind;
            kind == TokenKind::Word || kind == TokenKind::Symbol || kind == TokenKind::StringLiteral
                || kind == TokenKind::CharLiteral
        }),
    ensures
        step_done(
            tk,
            Snap { p, out: old(sink).out@, at: old(sink).at_line_start },
            Snap { p: r, out: final(sink).out@, at: final(sink).at_line_start },
        ),
{
    proof {
        reveal(step_done);
    }
    let ghost a = Snap { p, out: sink.out@, at: sink.at_line_start };
    match tk.kind(p.i) {
        TokenKind::Word => {
            let r = p.word(sink, tk);
            proof {
                lemma_token_step_word(tk, a, Snap { p: r, out: sink.out@, at: sink.at_line_start });
            }
            r
        },
        TokenKind::Symbol => {
            let r = p.symbol(sink, tk);
            proof {
                lemma_token_step_symbol(tk, a, Snap { p: r, out: sink.out@, at: sink.at_line_start });
            }
            r
        },
        _ => {
            let r = p.literal(sink, tk);
            proof {
                lemma_token_step_literal(tk, a, Snap { p: r, out: sink.out@, at: sink.at_line_start });
            }
            r
        },
    }
}

/// Prints a line or block comment.
fn print_comment_token(p: Printer, sink: &mut Sink, tk: &Toks) -> (r: Printer)
    requires
        p.inv(tk),
        p.i < tk.len(),
        tk.toks@[p.i as int].kind == TokenKind::LineComment || tk.toks@[p.i as int].kind
            == TokenKind::BlockComment,
    ensures
        step_done(
            tk,
            Snap { p, out: old(sink).out@, at: old(sink).at_line_start },
            Snap { p: r, out: final(sink).out@, at: final(sink).at_line_start },
        ),
{
    proof {
        reveal(step_done);
    }
    let ghost a = Snap { p, out: sink.out@, at: sink.at_line_start };
    if tk.kind(p.i) == TokenKind::LineComment {
        let r = p.line_comment(sink, tk);
        proof {
            lemma_token_step_line_comment(tk, a, Snap { p: r, out: sink.out@, at: sink.at_line_start });
        }
        r
    } else {
        let r = p.block_comment(sink, tk);
        proof {
            lemma_token_step_block_comment(tk, a, Snap { p: r, out: sink.out@, at: sink.at_line_start });
        }
        r
    }
}

proof fn lemma_token_step_symbol(tk: &Toks, a: Snap, b: Snap)
    requires
        tk.toks@[a.p.i as int].kind == TokenKind::Symbol,
        symbol_step(tk, a, b),
    ensures
        token_step(tk, a, b),
{
    reveal(token_step);
}

proof fn lemma_token_step_word(tk: &Toks, a: Snap, b: Snap)
    requires
        tk.toks@[a.p.i as int].kind == TokenKind::Word,
        word_step(tk, a, b),
    ensures
        token_step(tk, a, b),
{
    reveal(token_step);
}

proof fn lemma_token_step_literal(tk: &Toks, a: Snap, b: Snap)
    requires
        tk.toks@[a.p.i as int].kind == TokenKind::StringLiteral || tk.toks@[a.p.i as int].kind
            == TokenKind::CharLiteral,
        literal_step(tk, a, b),
    ensures
        token_step(tk, a, b),
{
    reveal(token_step);
}

proof fn lemma_token_step_line_comment(tk: &Toks, a: Snap, b: Snap)
    requires
        tk.toks@[a.p.i as int].kind == TokenKind::LineComment,
        b.p.i == a.p.i + 1,
        visible(b.out) == visible(a.out) + visible(tk.texts_from(a.p.i as int, b.p.i as int)),
    ensures
        token_step(tk, a, b),
{
    reveal(token_step);
}

proof fn lemma_token_step_block_comment(tk: &Toks, a: Snap, b: Snap)
    requires
        tk.toks@[a.p.i as int].kind == TokenKind::BlockComment,
        b.p.i == a.p.i + 1,
        exists|n: nat|
            visible(b.out) == visible(a.out) + visible(
                #[trigger] spec_normalize_block_comment(tk.texts@[a.p.i as int]@, n),
            ),
    ensures
        token_step(tk, a, b),
{
    reveal(token_step);
}

/// The formatted text of the meaningful tokens, with runs of blank lines
/// collapsed and a final newline; it differs from the tokens' texts only in
/// spaces and line breaks where no token is whitespace and block comments
/// keep their visible characters when normalized. The text is the finished
/// output of a run of the printer over the tokens, each step related to the
/// state before it as `token_step` describes; that relation leaves parts of
/// the state after an operator, a comment or a switch label unstated, so the text
/// as a whole is not fixed by this contract.
pub fn format_tokens(tk: &Toks) -> (r: Vec<char>)
    requires
        tk.wf(),
    ensures
        no_triple_newline(r@),
        r@.len() > 0 ==> r@.last() == '\n',
        tk.len() == 0 ==> r@.len() == 0,
        tk.no_layout_tokens() && comments_keep_text(tk) ==> visible(r@) == visible(
            tk.texts_from(0, tk.len() as int),
        ),
        tk.no_layout_tokens() ==> exists|ns: Seq<Option<nat>>|
            ns.len() == tk.len() && visible(r@) == visible(
                #[trigger] tk.pieces_from(ns, 0, tk.len() as int),
            ),
        exists|trace: Seq<Snap>|
            printer_run(tk, trace) && r@ == finished_output(#[trigger] trace.last().out),
{
    let mut p = Printer::new();
    let mut sink = Sink { out: Vec::new(), at_line_start: true };
    let ghost mut ns: Seq<Option<nat>> = Seq::new(tk.len(), |k: int| None);
    proof {
        lemma_cap(0);
        lemma_visible_layout(sink.out@);
        assert(tk.texts_from(0, 0) =~= Seq::<char>::empty());
        lemma_visible_layout(tk.texts_from(0, 0));
        assert(tk.pieces_from(ns, 0, 0) =~= Seq::<char>::empty());
    }
    let ghost mut trace: Seq<Snap> = seq![Snap { p, out: sink.out@, at: sink.at_line_start }];
    while p.i < tk.count()
        invariant
            p.inv(tk),
            trace.len() >= 1,
            initial_snap(trace[0]),
            forall|k: int|
                0 <= k < trace.len() - 1 ==> #[trigger] token_step(tk, trace[k], trace[k + 1]),
            forall|k: int| 0 <= k < trace.len() - 1 ==> trace[k].p.i < tk.len(),
            trace.last() == (Snap { p, out: sink.out@, at: sink.at_line_start }),
            tk.len() == 0 ==> sink.out@.len() == 0,
            tk.no_layout_tokens() && comments_keep_text(tk) ==> visible(sink.out@) == visible(
                tk.texts_from(0, p.i as int),
            ),
            ns.len() == tk.len(),
            forall|k: int| p.i <= k < ns.len() ==> (#[trigger] ns[k]) is None,
            tk.no_layout_tokens() ==> visible(sink.out@) == visible(
                tk.pieces_from(ns, 0, p.i as int),
            ),
        decreases tk.len() - p.i,
    {
        let ghost old_i = p.i;
        let ghost out_before = sink.out@;
        let ghost ns_before = ns;
        let ghost before = Snap { p, out: sink.out@, at: sink.at_line_start };
        proof {
            lemma_cap(p.i + 1);
        }
        let ghost kind = tk.toks@[p.i as int].kind;
        p = print_step(p, &mut sink, tk);
        proof {
            reveal(step_done);
        }
        proof {
            if kind == TokenKind::BlockComment {
                let n = choose|n: nat| visible(sink.out@) == visible(out_before) + visible(
                    spec_normalize_block_comment(tk.texts@[old_i as int]@, n),
                );
                ns = ns_before.update(old_i as int, Some(n));
                lemma_pieces_update(tk, ns_before, old_i as int, Some(n), 0, old_i as int);
                lemma_pieces_one(tk, ns, old_i as int);
                lemma_pieces_split(tk, ns, 0, old_i as int, old_i + 1);
                lemma_visible_concat(tk.pieces_from(ns, 0, old_i as int), tk.piece(ns, old_i as int));
            }
        }
        assert(cap(old_i as int) + 8 <= cap(p.i as int));
        proof {
            let after = Snap { p, out: sink.out@, at: sink.at_line_start };
            assert(token_step(tk, before, after));
            let old_trace = trace;
            trace = old_trace.push(after);
            assert forall|k: int| 0 <= k < trace.len() - 1 implies #[trigger] token_step(
                tk,
                trace[k],
                trace[k + 1],
            ) by {
                if k < old_trace.len() - 1 {
                    assert(trace[k] == old_trace[k] && trace[k + 1] == old_trace[k + 1]);
                } else {
                    assert(trace[k] == before && trace[k + 1] == after);
                }
            }
            lemma_cap(p.i as int);
            lemma_texts_from_split(tk, 0, old_i as int, p.i as int);
            lemma_visible_concat(tk.texts_from(0, old_i as int), tk.texts_from(old_i as int, p.i as int));
            if ns == ns_before {
                lemma_pieces_raw(tk, ns, old_i as int, p.i as int);
                lemma_pieces_split(tk, ns, 0, old_i as int, p.i as int);
                lemma_visible_concat(tk.pieces_from(ns, 0, old_i as int), tk.pieces_from(ns, old_i as int, p.i as int));
            }
        }
    }
    assert(tk.len() == 0 ==> sink.out@.len() == 0);
    assert(printer_run(tk, trace));
    let mut normalized = trim_redundant_blank_lines(&sink.out);
    proof {
        lemma_visible_collapse(sink.out@, 0);
    }
    let ghost ns_final = ns;
    if normalized.len() > 0 && !ends_with_char(&normalized, '\n') {
        let ghost before = normalized@;
        proof {
            lemma_visible_push_layout(before, '\n');
        }
        normalized.push('\n');
        assert forall|k: int| 0 <= k && k + 2 < normalized@.len() implies !(
        #[trigger] normalized@[k] == '\n' && normalized@[k + 1] == '\n' && normalized@[k + 2]
            == '\n') by {
            if k + 2 < before.len() {
                assert(normalized@[k] == before[k]);
                assert(normalized@[k + 1] == before[k + 1]);
                assert(normalized@[k + 2] == before[k + 2]);
            } else {
                assert(normalized@[k + 1] == before[before.len() - 1]);
            }
        }
    }
    assert(normalized@ == finished_output(trace.last().out));
    normalized
}

/// The printer's output.
#[derive(Debug, Clone)]
pub struct PrintedDoc {
    pub text: String,
}

/// Prints the meaningful tokens of the input: the text has no run of more
/// than two newlines, ends with a newline unless it is empty, and is empty
/// when the input has nothing but whitespace. Printing changes only spaces
/// and line breaks: what is visible of the text is what is visible of the
/// meaningful tokens' texts in order, wherever every block comment keeps its
/// visible characters when it is normalized. The text is the finished
/// output of a run of the printer over the meaningful tokens, each step
/// related to the state before it as `token_step` describes (which leaves
/// parts of the state after a step unstated).
pub fn print(ir: &FormatIr) -> (doc: PrintedDoc)
    requires
        ir.wf(),
        ir.tokens@.len() <= usize::MAX / 128,
    ensures
        no_triple_newline(doc.text@),
        doc.text@.len() > 0 ==> doc.text@.last() == '\n',
        meaningful(ir.tokens@).len() == 0 ==> doc.text@.len() == 0,
        block_comments_keep_text(ir.source@, meaningful(ir.tokens@)) ==> visible(doc.text@)
            == visible(
            tokens_text(ir.source@, meaningful(ir.tokens@), meaningful(ir.tokens@).len() as int),
        ),
        exists|ns: Seq<Option<nat>>|
            ns.len() == meaningful(ir.tokens@).len() && visible(doc.text@) == visible(
                #[trigger] tokens_pieces(
                    ir.source@,
                    meaningful(ir.tokens@),
                    ns,
                    meaningful(ir.tokens@).len() as int,
                ),
            ),
        exists|tk: Toks, trace: Seq<Snap>|
            tk.wf() && tk.toks@ == meaningful(ir.tokens@) && tk.source@ == ir.source@
                && #[trigger] printer_run(&tk, trace) && doc.text@ == finished_output(
                trace.last().out,
            ),
{
    let tk = collect_meaningful_tokens(&ir.source, &ir.tokens);
    let text = format_tokens(&tk);
    proof {
        lemma_meaningful_no_layout(ir.tokens@);
        lemma_texts_from_tokens(&tk, tk.len() as int);
        if block_comments_keep_text(ir.source@, meaningful(ir.tokens@)) {
            assert forall|k: int, n: nat|
                0 <= k < tk.len() && tk.toks@[k].kind == TokenKind::BlockComment implies #[trigger] visible(
                spec_normalize_block_comment(tk.texts@[k]@, n),
            ) == visible(tk.texts@[k]@) by {
                assert(tk.texts@[k]@ == ir.source@.subrange(
                    tk.toks@[k].start as int,
                    tk.toks@[k].end as int,
                ));
            }
        }
        assert(tk.no_layout_tokens()) by {
            assert forall|k: int| 0 <= k < tk.toks@.len() implies (#[trigger] tk.toks@[k]).kind
                != TokenKind::Whitespace && tk.toks@[k].kind != TokenKind::Newline by {
                assert(is_meaningful(meaningful(ir.tokens@)[k]));
            }
        }
        let ns = choose|ns: Seq<Option<nat>>|
            ns.len() == tk.len() && visible(text@) == visible(
                #[trigger] tk.pieces_from(ns, 0, tk.len() as int),
            );
        lemma_pieces_tokens(&tk, ns, tk.len() as int);
        let trace = choose|trace: Seq<Snap>|
            printer_run(&tk, trace) && text@ == finished_output(#[trigger] trace.last().out);
        assert(printer_run(&tk, trace));
    }
    PrintedDoc { text: string_of(&text) }
}

} // verus!
