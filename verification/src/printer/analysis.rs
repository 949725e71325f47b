//! Look-ahead and look-behind questions the printer asks about the tokens
//! around the one it is printing.
use vstd::prelude::*;
use crate::lexer::TokenKind;
use crate::printer::frames::{BlockFrame, BlockKind, ModuleDirective, TopLevelDirective};
use crate::printer::symbols::{
    Sym, classify_symbol, lemma_symbol_len, next_symbol_text, next_text_spec, opt_is, opt_view,
    read_symbol, sym_of, symbol_at,
};
use crate::printer::toks::{Toks, lemma_end_before_bound, lemma_end_before_step};
use crate::text::{is_one_of, seq_starts_with, spec_trim_start, text_is, trim_start_chars};

verus! {

/// The indentation of the current line: one more inside a `case` of a switch.
pub fn active_indent(base_indent: usize, stack: &Vec<BlockFrame>) -> (r: usize)
    requires
        base_indent < usize::MAX,
    ensures
        r == if stack@.len() > 0 && stack@.last().kind == BlockKind::Switch
            && stack@.last().in_switch_case {
            base_indent + 1
        } else {
            base_indent as int
        },
{
    if stack.len() > 0 {
        let frame = stack[stack.len() - 1];
        if frame.kind == BlockKind::Switch && frame.in_switch_case {
            return base_indent + 1;
        }
    }
    base_indent
}

/// `case` or `default` directly inside a switch block.
pub fn is_switch_label(word: &[char], stack: &Vec<BlockFrame>) -> (r: bool)
    ensures
        r == ((word@ == "case"@ || word@ == "default"@) && stack@.len() > 0
            && stack@.last().kind == BlockKind::Switch),
{
    (text_is(word, "case") || text_is(word, "default")) && stack.len() > 0 && stack[stack.len()
        - 1].kind == BlockKind::Switch
}

/// `class`, `interface` or `record`.
pub open spec fn is_type_keyword(word: Seq<char>) -> bool {
    word == "class"@ || word == "interface"@ || word == "record"@
}

/// `class`, `interface` or `record`.
pub fn is_type_declaration_keyword(word: &[char]) -> (r: bool)
    ensures
        r == is_type_keyword(word@),
{
    text_is(word, "class") || text_is(word, "interface") || text_is(word, "record")
}

/// The top-level directive a word names.
pub open spec fn top_level_directive_of(word: Seq<char>) -> Option<TopLevelDirective> {
    if word == "package"@ {
        Some(TopLevelDirective::Package)
    } else if word == "import"@ {
        Some(TopLevelDirective::Import)
    } else {
        None
    }
}

/// The top-level directive a word names.
pub fn top_level_directive_from_word(word: &[char]) -> (r: Option<TopLevelDirective>)
    ensures
        r == top_level_directive_of(word@),
{
    if text_is(word, "package") {
        Some(TopLevelDirective::Package)
    } else if text_is(word, "import") {
        Some(TopLevelDirective::Import)
    } else {
        None
    }
}

/// The module directive a word names.
pub open spec fn module_directive_of(word: Seq<char>) -> Option<ModuleDirective> {
    if word == "requires"@ {
        Some(ModuleDirective::Requires)
    } else if word == "exports"@ {
        Some(ModuleDirective::Exports)
    } else if word == "opens"@ {
        Some(ModuleDirective::Opens)
    } else if word == "uses"@ {
        Some(ModuleDirective::Uses)
    } else if word == "provides"@ {
        Some(ModuleDirective::Provides)
    } else {
        None
    }
}

/// The module directive a word names.
pub fn module_directive_from_word(word: &[char]) -> (r: Option<ModuleDirective>)
    ensures
        r == module_directive_of(word@),
{
    if text_is(word, "requires") {
        Some(ModuleDirective::Requires)
    } else if text_is(word, "exports") {
        Some(ModuleDirective::Exports)
    } else if text_is(word, "opens") {
        Some(ModuleDirective::Opens)
    } else if text_is(word, "uses") {
        Some(ModuleDirective::Uses)
    } else if text_is(word, "provides") {
        Some(ModuleDirective::Provides)
    } else {
        None
    }
}

/// The kind of token `i`.
pub open spec fn kind_at(tk: &Toks, i: int) -> TokenKind {
    tk.toks@[i].kind
}

/// The operator that starts at token `i`.
pub open spec fn op_at(tk: &Toks, i: int) -> Sym {
    sym_of(symbol_at(tk, i).0)
}

/// The number of tokens of the operator that starts at token `i`.
pub open spec fn op_len(tk: &Toks, i: int) -> int {
    symbol_at(tk, i).1 as int
}

/// One less, but not below zero.
pub open spec fn dec(n: nat) -> nat {
    if n > 0 {
        (n - 1) as nat
    } else {
        0
    }
}

/// The directive named by the first word from `i` on, unless a `}` comes
/// first.
pub open spec fn next_directive_word(tk: &Toks, i: int) -> Option<Seq<char>>
    decreases tk.len() - i,
{
    if i < 0 || i >= tk.len() {
        None
    } else if kind_at(tk, i) == TokenKind::Word {
        Some(tk.texts@[i]@)
    } else if kind_at(tk, i) == TokenKind::Symbol {
        if symbol_at(tk, i).0 == "}"@ {
            None
        } else {
            proof {
                lemma_symbol_len(tk, i);
            }
            next_directive_word(tk, i + op_len(tk, i))
        }
    } else {
        next_directive_word(tk, i + 1)
    }
}

/// The top-level directive named by the next word, unless a `}` comes first.
pub fn next_top_level_directive(tk: &Toks, index: usize) -> (r: Option<TopLevelDirective>)
    requires
        tk.wf(),
    ensures
        r == match next_directive_word(tk, index as int) {
            Some(w) => top_level_directive_of(w),
            None => None,
        },
{
    let mut i = index;
    while i < tk.count()
        invariant
            tk.wf(),
            index <= i,
            next_directive_word(tk, index as int) == next_directive_word(tk, i as int),
        decreases tk.len() - i,
    {
        match tk.kind(i) {
            TokenKind::Word => return top_level_directive_from_word(&tk.texts[i]),
            TokenKind::Symbol => {
                let (symbol, consumed) = read_symbol(tk, i);
                if text_is(&symbol, "}") {
                    return None;
                }
                i = i + consumed;
            },
            _ => {
                i = i + 1;
            },
        }
    }
    None
}

/// The module directive named by the next word, unless a `}` comes first.
pub fn next_module_directive(tk: &Toks, index: usize) -> (r: Option<ModuleDirective>)
    requires
        tk.wf(),
    ensures
        r == match next_directive_word(tk, index as int) {
            Some(w) => module_directive_of(w),
            None => None,
        },
{
    let mut i = index;
    while i < tk.count()
        invariant
            tk.wf(),
            index <= i,
            next_directive_word(tk, index as int) == next_directive_word(tk, i as int),
        decreases tk.len() - i,
    {
        match tk.kind(i) {
            TokenKind::Word => return module_directive_from_word(&tk.texts[i]),
            TokenKind::Symbol => {
                let (symbol, consumed) = read_symbol(tk, i);
                if text_is(&symbol, "}") {
                    return None;
                }
                i = i + consumed;
            },
            _ => {
                i = i + 1;
            },
        }
    }
    None
}

/// A `:` after a word that ends a statement label (`outer:`).
pub fn is_label_colon_context(
    prev_kind: Option<TokenKind>,
    prev_text: &Option<Vec<char>>,
    next_text: &Option<Vec<char>>,
    paren_depth: usize,
) -> (r: bool)
    ensures
        r == (paren_depth == 0 && prev_kind == Some(TokenKind::Word) && !(prev_text matches Some(
            t,
        ) && (t@ == "case"@ || t@ == "default"@)) && next_text is Some && !(next_text matches Some(
            t,
        ) && (t@ == ":"@ || t@ == ";"@ || t@ == ","@ || t@ == ")"@ || t@ == "]"@ || t@ == "}"@))),
{
    if paren_depth != 0 || prev_kind != Some(TokenKind::Word) {
        return false;
    }
    if opt_is(prev_text, "case") || opt_is(prev_text, "default") {
        return false;
    }
    if opt_is(next_text, ":") || opt_is(next_text, ";") || opt_is(next_text, ",") || opt_is(
        next_text,
        ")",
    ) || opt_is(next_text, "]") || opt_is(next_text, "}") {
        return false;
    }
    next_text.is_some()
}

/// Whether the tokens from `i` on, `depth` parentheses deep, reach a
/// top-level `->` followed by `{` before a top-level `;`.
pub open spec fn block_lambda_from(tk: &Toks, i: int, depth: nat) -> bool
    decreases tk.len() - i,
{
    if i < 0 || i >= tk.len() {
        false
    } else if kind_at(tk, i) == TokenKind::Symbol {
        let op = op_at(tk, i);
        let next = i + op_len(tk, i);
        proof {
            lemma_symbol_len(tk, i);
        }
        if op == Sym::Semi && depth == 0 {
            false
        } else if op == Sym::LParen {
            block_lambda_from(tk, next, depth + 1)
        } else if op == Sym::RParen {
            block_lambda_from(tk, next, dec(depth))
        } else if op == Sym::Arrow && depth == 0 {
            next_text_spec(tk, next) == Some("{"@)
        } else {
            block_lambda_from(tk, next, depth)
        }
    } else {
        block_lambda_from(tk, i + 1, depth)
    }
}

/// The right-hand side starting at `index` is a lambda with a block body.
pub fn starts_block_lambda_rhs(tk: &Toks, index: usize) -> (r: bool)
    requires
        tk.wf(),
    ensures
        r == block_lambda_from(tk, index as int, 0),
{
    let mut local_paren_depth: usize = 0;
    let mut i = index;
    while i < tk.count()
        invariant
            tk.wf(),
            index <= i,
            local_paren_depth <= i,
            block_lambda_from(tk, index as int, 0) == block_lambda_from(
                tk,
                i as int,
                local_paren_depth as nat,
            ),
        decreases tk.len() - i,
    {
        if tk.kind(i) == TokenKind::Symbol {
            let (symbol, consumed) = read_symbol(tk, i);
            let sym = classify_symbol(&symbol);
            if sym == Sym::Semi && local_paren_depth == 0 {
                return false;
            } else if sym == Sym::LParen {
                local_paren_depth = local_paren_depth + 1;
            } else if sym == Sym::RParen {
                local_paren_depth = if local_paren_depth > 0 {
                    local_paren_depth - 1
                } else {
                    0
                };
            } else if sym == Sym::Arrow && local_paren_depth == 0 {
                let next = next_symbol_text(tk, i + consumed);
                return opt_is(&next, "{");
            }
            i = i + consumed;
        } else {
            i = i + 1;
        }
    }
    false
}

#[derive(Debug, Clone, Copy, PartialEq, Eq, Structural)]
pub struct ChainContinuationMetrics {
    pub keep_leading_dots: usize,
}

/// What the scan of a method chain has seen so far.
pub struct ChainScan {
    pub paren: nat,
    pub bracket: nat,
    pub scanned: nat,
    pub dots: nat,
    pub dots_after_call: nat,
    pub keep: nat,
    pub first_call_dot: nat,
    pub saw_call: bool,
}

/// The text of a chain method that keeps its `.` on the first line.
pub open spec fn is_chain_prefix(name: Seq<char>) -> bool {
    name == "stream"@ || name == "parallelStream"@ || name == "toBuilder"@
}

/// The scan after the `.` at top level at token `i`, followed by token `next`.
pub open spec fn chain_dot(tk: &Toks, i: int, next: int, st: ChainScan) -> ChainScan {
    let dots = st.dots + 1;
    let name = chain_name_from(tk, next, None);
    ChainScan {
        dots,
        first_call_dot: if st.first_call_dot == 0 && name is Some {
            dots
        } else {
            st.first_call_dot
        },
        dots_after_call: if i > 0 && tk.texts@[i - 1]@ == ")"@ {
            st.dots_after_call + 1
        } else {
            st.dots_after_call
        },
        keep: if dots <= 2 && (name matches Some(n) && is_chain_prefix(n)) {
            dots
        } else {
            st.keep
        },
        ..st
    }
}

/// The scan of a statement's method chain from token `i` on, up to its
/// top-level `;`.
pub open spec fn chain_scan(tk: &Toks, i: int, st: ChainScan) -> ChainScan
    decreases tk.len() - i,
{
    if i < 0 || i >= tk.len() {
        st
    } else {
        let st1 = ChainScan {
            scanned: st.scanned + (tk.toks@[i].end - tk.toks@[i].start) as nat,
            ..st
        };
        if kind_at(tk, i) == TokenKind::Symbol {
            let op = op_at(tk, i);
            let next = i + op_len(tk, i);
            proof {
                lemma_symbol_len(tk, i);
            }
            if op == Sym::Semi && st1.paren == 0 && st1.bracket == 0 {
                st1
            } else {
                let st2 = if op == Sym::LParen {
                    ChainScan {
                        saw_call: st1.saw_call || (st1.paren == 0 && st1.bracket == 0),
                        paren: st1.paren + 1,
                        ..st1
                    }
                } else if op == Sym::RParen {
                    ChainScan { paren: dec(st1.paren), ..st1 }
                } else if op == Sym::LBracket {
                    ChainScan { bracket: st1.bracket + 1, ..st1 }
                } else if op == Sym::RBracket {
                    ChainScan { bracket: dec(st1.bracket), ..st1 }
                } else if op == Sym::Dot && st1.paren == 0 && st1.bracket == 0 {
                    chain_dot(tk, i, next, st1)
                } else {
                    st1
                };
                chain_scan(tk, next, st2)
            }
        } else {
            chain_scan(tk, i + 1, st1)
        }
    }
}

/// How a scanned chain is broken: `None` unless a `.` follows a call or the
/// chain is a long run of fields; otherwise how many leading dots stay on
/// the first line.
pub open spec fn chain_result(st: ChainScan) -> Option<ChainContinuationMetrics> {
    let long = st.dots >= 5 && st.scanned >= 80 && !st.saw_call;
    let k1 = if st.keep == 0 && st.first_call_dot >= 2 {
        st.first_call_dot
    } else {
        st.keep
    };
    let k2 = if long && k1 == 0 {
        1
    } else {
        k1
    };
    if st.dots_after_call >= 1 || long {
        Some(ChainContinuationMetrics { keep_leading_dots: k2 as usize })
    } else {
        None
    }
}

/// The scan before the chain.
pub open spec fn chain_start() -> ChainScan {
    ChainScan {
        paren: 0,
        bracket: 0,
        scanned: 0,
        dots: 0,
        dots_after_call: 0,
        keep: 0,
        first_call_dot: 0,
        saw_call: false,
    }
}

/// How a method chain starting at `index` is to be broken, if it is.
#[verifier::rlimit(40)]
pub fn chain_continuation_metrics(tk: &Toks, index: usize) -> (r: Option<ChainContinuationMetrics>)
    requires
        tk.wf(),
    ensures
        r == chain_result(chain_scan(tk, index as int, chain_start())),
{
    let mut local_paren_depth: usize = 0;
    let mut local_bracket_depth: usize = 0;
    let mut scanned_chars: usize = 0;
    let mut top_level_dot_count: usize = 0;
    let mut dot_after_call_count: usize = 0;
    let mut keep_leading_dots: usize = 0;
    let mut first_top_level_call_dot: usize = 0;
    let mut saw_top_level_method_call = false;
    let mut i = index;
    if i > tk.count() {
        i = tk.count();
    }
    proof {
        lemma_end_before_bound(tk, i as int);
    }
    while i < tk.count()
        invariant_except_break
            chain_scan(tk, index as int, chain_start()) == chain_scan(
                tk,
                i as int,
                ChainScan {
                    paren: local_paren_depth as nat,
                    bracket: local_bracket_depth as nat,
                    scanned: scanned_chars as nat,
                    dots: top_level_dot_count as nat,
                    dots_after_call: dot_after_call_count as nat,
                    keep: keep_leading_dots as nat,
                    first_call_dot: first_top_level_call_dot as nat,
                    saw_call: saw_top_level_method_call,
                },
            ),
            scanned_chars <= tk.end_before(i as int),
            local_paren_depth <= i,
            local_bracket_depth <= i,
            top_level_dot_count <= i,
            dot_after_call_count <= i,
            keep_leading_dots <= i,
            first_top_level_call_dot <= i,
        invariant
            tk.wf(),
            i <= tk.len(),
            index <= i || i == tk.len(),
        ensures
            chain_scan(tk, index as int, chain_start()) == (ChainScan {
                    paren: local_paren_depth as nat,
                    bracket: local_bracket_depth as nat,
                    scanned: scanned_chars as nat,
                    dots: top_level_dot_count as nat,
                    dots_after_call: dot_after_call_count as nat,
                    keep: keep_leading_dots as nat,
                    first_call_dot: first_top_level_call_dot as nat,
                    saw_call: saw_top_level_method_call,
                }),
        decreases tk.len() - i,
    {
        proof {
            lemma_end_before_step(tk, i as int, i + 1);
        }
        scanned_chars = scanned_chars + tk.width(i);
        if tk.kind(i) == TokenKind::Symbol {
            let (symbol, consumed) = read_symbol(tk, i);
            proof {
                lemma_end_before_step(tk, i as int, i + consumed);
            }
            let sym = classify_symbol(&symbol);
            if sym == Sym::Semi && local_paren_depth == 0 && local_bracket_depth == 0 {
                break ;
            } else if sym == Sym::LParen {
                if local_paren_depth == 0 && local_bracket_depth == 0 {
                    saw_top_level_method_call = true;
                }
                local_paren_depth = local_paren_depth + 1;
            } else if sym == Sym::RParen {
                local_paren_depth = if local_paren_depth > 0 {
                    local_paren_depth - 1
                } else {
                    0
                };
            } else if sym == Sym::LBracket {
                local_bracket_depth = local_bracket_depth + 1;
            } else if sym == Sym::RBracket {
                local_bracket_depth = if local_bracket_depth > 0 {
                    local_bracket_depth - 1
                } else {
                    0
                };
            } else if sym == Sym::Dot && local_paren_depth == 0 && local_bracket_depth == 0 {
                top_level_dot_count = top_level_dot_count + 1;
                let member_call_name = next_chain_member_call_name(tk, i + consumed);
                if first_top_level_call_dot == 0 && member_call_name.is_some() {
                    first_top_level_call_dot = top_level_dot_count;
                }
                if i > 0 && tk.is(i - 1, ")") {
                    dot_after_call_count = dot_after_call_count + 1;
                }
                if top_level_dot_count <= 2 {
                    match &member_call_name {
                        Some(member_name) => {
                            if is_chain_prefix_method(member_name) {
                                keep_leading_dots = top_level_dot_count;
                            }
                        },
                        None => {},
                    }
                }
            }
            i = i + consumed;
        } else {
            i = i + 1;
        }
    }
    let long_member_chain = top_level_dot_count >= 5 && scanned_chars >= 80
        && !saw_top_level_method_call;
    if keep_leading_dots == 0 && first_top_level_call_dot >= 2 {
        keep_leading_dots = first_top_level_call_dot;
    }
    if long_member_chain && keep_leading_dots == 0 {
        keep_leading_dots = 1;
    }
    if dot_after_call_count >= 1 || long_member_chain {
        Some(ChainContinuationMetrics { keep_leading_dots })
    } else {
        None
    }
}

/// Whether the annotation arguments from `i` on, `paren` parentheses and
/// `brace` braces deep, hold a top-level `=` and a top-level `,` before the
/// closing parenthesis, given whether they were seen already.
pub open spec fn annotation_args_from(
    tk: &Toks,
    i: int,
    paren: nat,
    brace: nat,
    eq: bool,
    comma: bool,
) -> bool
    decreases tk.len() - i,
{
    if i < 0 || i >= tk.len() {
        eq && comma
    } else if kind_at(tk, i) == TokenKind::Symbol {
        let op = op_at(tk, i);
        let next = i + op_len(tk, i);
        proof {
            lemma_symbol_len(tk, i);
        }
        if op == Sym::LParen {
            annotation_args_from(tk, next, paren + 1, brace, eq, comma)
        } else if op == Sym::RParen {
            if paren == 0 {
                eq && comma
            } else {
                annotation_args_from(tk, next, dec(paren), brace, eq, comma)
            }
        } else if op == Sym::LBrace {
            annotation_args_from(tk, next, paren, brace + 1, eq, comma)
        } else if op == Sym::RBrace {
            annotation_args_from(tk, next, paren, dec(brace), eq, comma)
        } else if op == Sym::Assign && paren == 0 && brace == 0 {
            annotation_args_from(tk, next, paren, brace, true, comma)
        } else if op == Sym::Comma && paren == 0 && brace == 0 {
            annotation_args_from(tk, next, paren, brace, eq, true)
        } else {
            annotation_args_from(tk, next, paren, brace, eq, comma)
        }
    } else {
        annotation_args_from(tk, i + 1, paren, brace, eq, comma)
    }
}

/// Annotation arguments with both a top-level `=` and a top-level `,`.
pub fn should_break_annotation_arguments(tk: &Toks, index: usize) -> (r: bool)
    requires
        tk.wf(),
    ensures
        r == annotation_args_from(tk, index as int, 0, 0, false, false),
{
    let mut local_paren_depth: usize = 0;
    let mut local_brace_depth: usize = 0;
    let mut saw_top_level_equals = false;
    let mut saw_top_level_comma = false;
    let mut i = index;
    while i < tk.count()
        invariant_except_break
            annotation_args_from(tk, index as int, 0, 0, false, false) == annotation_args_from(
                tk,
                i as int,
                local_paren_depth as nat,
                local_brace_depth as nat,
                saw_top_level_equals,
                saw_top_level_comma,
            ),
        invariant
            tk.wf(),
            index <= i,
            local_paren_depth <= i,
            local_brace_depth <= i,
        ensures
            annotation_args_from(tk, index as int, 0, 0, false, false) == (saw_top_level_equals
                && saw_top_level_comma),
        decreases tk.len() - i,
    {
        if tk.kind(i) == TokenKind::Symbol {
            let (symbol, consumed) = read_symbol(tk, i);
            let sym = classify_symbol(&symbol);
            if sym == Sym::LParen {
                local_paren_depth = local_paren_depth + 1;
            } else if sym == Sym::RParen {
                if local_paren_depth == 0 {
                    break ;
                }
                local_paren_depth = local_paren_depth - 1;
            } else if sym == Sym::LBrace {
                local_brace_depth = local_brace_depth + 1;
            } else if sym == Sym::RBrace {
                local_brace_depth = if local_brace_depth > 0 {
                    local_brace_depth - 1
                } else {
                    0
                };
            } else if sym == Sym::Assign && local_paren_depth == 0 && local_brace_depth == 0 {
                saw_top_level_equals = true;
            } else if sym == Sym::Comma && local_paren_depth == 0 && local_brace_depth == 0 {
                saw_top_level_comma = true;
            }
            i = i + consumed;
        } else {
            i = i + 1;
        }
    }
    saw_top_level_equals && saw_top_level_comma
}

/// What the arguments of a call look like: their length, their commas and
/// calls at top level, how they were laid out in the source, and whether
/// they hold comments or array initializers.
#[derive(Debug, Clone, Copy, PartialEq, Eq, Structural)]
pub struct CallArgumentMetrics {
    pub scanned_chars: usize,
    pub top_level_comma_count: usize,
    pub top_level_call_arg_count: usize,
    pub first_arg_has_call: bool,
    pub max_input_line_args: usize,
    pub saw_top_level_newline: bool,
    pub has_comment: bool,
    pub has_top_level_initializer: bool,
}

impl CallArgumentMetrics {
    /// Break after `(` of a call with explicit type arguments.
    pub fn should_break_short(&self) -> (r: bool)
        ensures
            r == (self.has_top_level_initializer || (self.scanned_chars >= 30
                && self.top_level_comma_count >= 1)),
    {
        self.has_top_level_initializer || (self.scanned_chars >= 30
            && self.top_level_comma_count >= 1)
    }

    /// Break after `(` of an ordinary call.
    pub fn should_break_long(&self) -> (r: bool)
        ensures
            r == (self.has_top_level_initializer || (self.scanned_chars >= 60
                && self.top_level_comma_count >= 1)),
    {
        self.has_top_level_initializer || (self.scanned_chars >= 60
            && self.top_level_comma_count >= 1)
    }

    /// Put every argument on a line of its own.
    pub fn should_force_vertical(&self) -> (r: bool)
        ensures
            r == (self.has_top_level_initializer || (self.saw_top_level_newline
                && self.max_input_line_args > 2) || self.first_arg_has_call
                || self.top_level_call_arg_count >= 2),
    {
        self.has_top_level_initializer || (self.saw_top_level_newline
            && self.max_input_line_args > 2) || self.first_arg_has_call
            || self.top_level_call_arg_count >= 2
    }

    pub fn has_comment(&self) -> (r: bool)
        ensures
            r == self.has_comment,
    {
        self.has_comment
    }
}

/// Whether the source between tokens `a` and `b` holds a newline.
pub open spec fn gap_nl(tk: &Toks, a: int, b: int) -> bool {
    tk.source@.subrange(tk.toks@[a].end as int, tk.toks@[b].start as int).contains('\n')
}

/// What the scan of call arguments has seen so far.
pub struct ArgScan {
    pub paren: nat,
    pub bracket: nat,
    pub brace: nat,
    pub scanned: nat,
    pub commas: nat,
    pub call_args: nat,
    pub first_call: bool,
    pub cur_call: bool,
    pub cur_line: nat,
    pub max_line: nat,
    pub saw_any: bool,
    pub saw_first: bool,
    pub saw_nl: bool,
    pub comment: bool,
    pub init: bool,
}

/// The larger of two counts.
pub open spec fn max_nat(a: nat, b: nat) -> nat {
    if a > b {
        a
    } else {
        b
    }
}

/// The measures a finished scan reports.
pub open spec fn arg_metrics(st: ArgScan) -> CallArgumentMetrics {
    CallArgumentMetrics {
        scanned_chars: st.scanned as usize,
        top_level_comma_count: st.commas as usize,
        top_level_call_arg_count: st.call_args as usize,
        first_arg_has_call: st.first_call,
        max_input_line_args: st.max_line as usize,
        saw_top_level_newline: st.saw_nl,
        has_comment: st.comment,
        has_top_level_initializer: st.init,
    }
}

/// Nothing is open: the scan stands between top-level arguments.
pub open spec fn at_top(st: ArgScan) -> bool {
    st.paren == 0 && st.bracket == 0 && st.brace == 0
}

/// The scan with a new line of arguments started.
pub open spec fn new_arg_line(st: ArgScan) -> ArgScan {
    ArgScan { saw_nl: true, max_line: max_nat(st.max_line, st.cur_line), cur_line: 1, ..st }
}

/// The scan after the closing parenthesis of the call.
pub open spec fn arg_close(st: ArgScan) -> ArgScan {
    if st.saw_any {
        ArgScan {
            first_call: if !st.saw_first {
                st.cur_call
            } else {
                st.first_call
            },
            call_args: st.call_args + if st.cur_call {
                1nat
            } else {
                0nat
            },
            max_line: max_nat(st.max_line, st.cur_line),
            ..st
        }
    } else {
        st
    }
}

/// The scan after the operator at token `i` (other than the closing
/// parenthesis), before line breaks are looked at.
pub open spec fn arg_op(st: ArgScan, op: Sym, nl_after: bool) -> ArgScan {
    if op == Sym::LParen {
        ArgScan { saw_any: true, cur_call: st.cur_call || at_top(st), paren: st.paren + 1, ..st }
    } else if op == Sym::RParen {
        ArgScan { paren: dec(st.paren), ..st }
    } else if op == Sym::LBracket {
        ArgScan { saw_any: true, bracket: st.bracket + 1, ..st }
    } else if op == Sym::RBracket {
        ArgScan { saw_any: true, bracket: dec(st.bracket), ..st }
    } else if op == Sym::LBrace {
        ArgScan { saw_any: true, init: st.init || at_top(st), brace: st.brace + 1, ..st }
    } else if op == Sym::RBrace {
        ArgScan { saw_any: true, brace: dec(st.brace), ..st }
    } else if op == Sym::Comma && at_top(st) {
        let s1 = ArgScan {
            commas: st.commas + 1,
            first_call: if !st.saw_first {
                st.cur_call
            } else {
                st.first_call
            },
            saw_first: true,
            call_args: st.call_args + if st.cur_call {
                1nat
            } else {
                0nat
            },
            cur_call: false,
            ..st
        };
        if nl_after {
            new_arg_line(s1)
        } else {
            ArgScan { cur_line: s1.cur_line + 1, ..s1 }
        }
    } else {
        ArgScan { saw_any: true, ..st }
    }
}

/// The measures of call arguments scanned from token `i` on.
pub open spec fn args_scan(tk: &Toks, i: int, st: ArgScan) -> CallArgumentMetrics
    decreases tk.len() - i,
{
    if i < 0 || i >= tk.len() {
        arg_metrics(st)
    } else {
        let k = kind_at(tk, i);
        let st1 = ArgScan {
            scanned: st.scanned + (tk.toks@[i].end - tk.toks@[i].start) as nat,
            comment: st.comment || k == TokenKind::BlockComment || k == TokenKind::LineComment,
            ..st
        };
        if k == TokenKind::Symbol {
            let op = op_at(tk, i);
            let next = i + op_len(tk, i);
            proof {
                lemma_symbol_len(tk, i);
            }
            let nl_after = next < tk.len() && at_top(st1) && gap_nl(tk, next - 1, next);
            if op == Sym::RParen && st1.paren == 0 {
                arg_metrics(arg_close(st1))
            } else {
                let st2 = arg_op(st1, op, nl_after);
                let st3 = if next < tk.len() && at_top(st2) && nl_after && !(op == Sym::Comma
                    && at_top(st2)) {
                    new_arg_line(st2)
                } else {
                    st2
                };
                args_scan(tk, next, st3)
            }
        } else {
            let st2 = ArgScan { saw_any: true, ..st1 };
            let next = i + 1;
            let st3 = if next < tk.len() && at_top(st1) && gap_nl(tk, i, next) {
                new_arg_line(st2)
            } else {
                st2
            };
            args_scan(tk, next, st3)
        }
    }
}

/// The scan before the first argument token.
pub open spec fn arg_start() -> ArgScan {
    ArgScan {
        paren: 0,
        bracket: 0,
        brace: 0,
        scanned: 0,
        commas: 0,
        call_args: 0,
        first_call: false,
        cur_call: false,
        cur_line: 1,
        max_line: 1,
        saw_any: false,
        saw_first: false,
        saw_nl: false,
        comment: false,
        init: false,
    }
}

/// The counts of the call-argument scan, as the scan keeps them.
#[derive(Clone, Copy)]
pub struct ArgCounts {
    pub paren: usize,
    pub bracket: usize,
    pub brace: usize,
    pub scanned: usize,
    pub commas: usize,
    pub call_args: usize,
    pub first_call: bool,
    pub cur_call: bool,
    pub cur_line: usize,
    pub max_line: usize,
    pub saw_any: bool,
    pub saw_first: bool,
    pub saw_nl: bool,
    pub comment: bool,
    pub init: bool,
}

impl ArgCounts {
    /// The counts as values.
    pub open spec fn view(&self) -> ArgScan {
        ArgScan {
            paren: self.paren as nat,
            bracket: self.bracket as nat,
            brace: self.brace as nat,
            scanned: self.scanned as nat,
            commas: self.commas as nat,
            call_args: self.call_args as nat,
            first_call: self.first_call,
            cur_call: self.cur_call,
            cur_line: self.cur_line as nat,
            max_line: self.max_line as nat,
            saw_any: self.saw_any,
            saw_first: self.saw_first,
            saw_nl: self.saw_nl,
            comment: self.comment,
            init: self.init,
        }
    }

    /// Every count is at most `b`, the line counts at most `b + 1`.
    pub open spec fn within(&self, b: int) -> bool {
        &&& self.paren <= b
        &&& self.bracket <= b
        &&& self.brace <= b
        &&& self.commas <= b
        &&& self.call_args <= b
        &&& 1 <= self.cur_line <= b + 1
        &&& 1 <= self.max_line <= b + 1
    }

    fn at_top(&self) -> (r: bool)
        ensures
            r == at_top(self.view()),
    {
        self.paren == 0 && self.bracket == 0 && self.brace == 0
    }

    fn new_line(self) -> (r: ArgCounts)
        ensures
            r.view() == new_arg_line(self.view()),
    {
        let max_line = if self.cur_line > self.max_line {
            self.cur_line
        } else {
            self.max_line
        };
        ArgCounts { saw_nl: true, max_line, cur_line: 1, ..self }
    }

    fn close(self) -> (r: ArgCounts)
        requires
            self.call_args < usize::MAX,
        ensures
            r.view() == arg_close(self.view()),
    {
        if self.saw_any {
            let max_line = if self.cur_line > self.max_line {
                self.cur_line
            } else {
                self.max_line
            };
            ArgCounts {
                first_call: if !self.saw_first {
                    self.cur_call
                } else {
                    self.first_call
                },
                call_args: self.call_args + if self.cur_call {
                    1
                } else {
                    0
                },
                max_line,
                ..self
            }
        } else {
            self
        }
    }

    fn apply_op(self, op: Sym, nl_after: bool) -> (r: ArgCounts)
        requires
            self.within((usize::MAX / 2) as int),
        ensures
            r.view() == arg_op(self.view(), op, nl_after),
            forall|b: int| self.within(b) ==> #[trigger] r.within(b + 1),
    {
        if op == Sym::LParen {
            let top = self.at_top();
            ArgCounts { saw_any: true, cur_call: self.cur_call || top, paren: self.paren + 1, ..self }
        } else if op == Sym::RParen {
            ArgCounts {
                paren: if self.paren > 0 {
                    self.paren - 1
                } else {
                    0
                },
                ..self
            }
        } else if op == Sym::LBracket {
            ArgCounts { saw_any: true, bracket: self.bracket + 1, ..self }
        } else if op == Sym::RBracket {
            ArgCounts {
                saw_any: true,
                bracket: if self.bracket > 0 {
                    self.bracket - 1
                } else {
                    0
                },
                ..self
            }
        } else if op == Sym::LBrace {
            let top = self.at_top();
            ArgCounts { saw_any: true, init: self.init || top, brace: self.brace + 1, ..self }
        } else if op == Sym::RBrace {
            ArgCounts {
                saw_any: true,
                brace: if self.brace > 0 {
                    self.brace - 1
                } else {
                    0
                },
                ..self
            }
        } else if op == Sym::Comma && self.at_top() {
            let s1 = ArgCounts {
                commas: self.commas + 1,
                first_call: if !self.saw_first {
                    self.cur_call
                } else {
                    self.first_call
                },
                saw_first: true,
                call_args: self.call_args + if self.cur_call {
                    1
                } else {
                    0
                },
                cur_call: false,
                ..self
            };
            if nl_after {
                s1.new_line()
            } else {
                ArgCounts { cur_line: s1.cur_line + 1, ..s1 }
            }
        } else {
            ArgCounts { saw_any: true, ..self }
        }
    }

    fn metrics(&self) -> (r: CallArgumentMetrics)
        ensures
            r == arg_metrics(self.view()),
    {
        CallArgumentMetrics {
            scanned_chars: self.scanned,
            top_level_comma_count: self.commas,
            top_level_call_arg_count: self.call_args,
            first_arg_has_call: self.first_call,
            max_input_line_args: self.max_line,
            saw_top_level_newline: self.saw_nl,
            has_comment: self.comment,
            has_top_level_initializer: self.init,
        }
    }
}

/// Measures the arguments of a call whose first argument token is `index`.
#[verifier::rlimit(60)]
pub fn call_arguments_break_metrics(tk: &Toks, index: usize) -> (r: Option<CallArgumentMetrics>)
    requires
        tk.wf(),
    ensures
        r == Some(args_scan(tk, index as int, arg_start())),
{
    let mut st = ArgCounts {
        paren: 0,
        bracket: 0,
        brace: 0,
        scanned: 0,
        commas: 0,
        call_args: 0,
        first_call: false,
        cur_call: false,
        cur_line: 1,
        max_line: 1,
        saw_any: false,
        saw_first: false,
        saw_nl: false,
        comment: false,
        init: false,
    };
    let mut i = index;
    if i > tk.count() {
        i = tk.count();
    }
    proof {
        lemma_end_before_bound(tk, i as int);
    }
    while i < tk.count()
        invariant_except_break
            args_scan(tk, index as int, arg_start()) == args_scan(tk, i as int, st.view()),
            st.scanned <= tk.end_before(i as int),
            st.within(i as int),
        invariant
            tk.wf(),
            i <= tk.len(),
            index <= i || i == tk.len(),
        ensures
            args_scan(tk, index as int, arg_start()) == arg_metrics(st.view()),
        decreases tk.len() - i,
    {
        proof {
            lemma_end_before_step(tk, i as int, i + 1);
        }
        let ghost st0 = st.view();
        let kind = tk.kind(i);
        st.scanned = st.scanned + tk.width(i);
        if kind == TokenKind::BlockComment || kind == TokenKind::LineComment {
            st.comment = true;
        }
        let ghost st1 = st.view();
        assert(st1 == ArgScan {
            scanned: st0.scanned + (tk.toks@[i as int].end - tk.toks@[i as int].start) as nat,
            comment: st0.comment || kind == TokenKind::BlockComment || kind == TokenKind::LineComment,
            ..st0
        });
        if kind == TokenKind::Symbol {
            let (symbol, consumed) = read_symbol(tk, i);
            proof {
                lemma_end_before_step(tk, i as int, i + consumed);
            }
            let sym = classify_symbol(&symbol);
            let next_index = i + consumed;
            let top_level_newline_after = next_index < tk.count() && st.at_top() && tk.gap_has_newline(
                next_index - 1,
                next_index,
            );
            assert(sym == op_at(tk, i as int));
            assert(next_index == i + op_len(tk, i as int));
            if sym == Sym::RParen && st.paren == 0 {
                st = st.close();
                break ;
            }
            st = st.apply_op(sym, top_level_newline_after);
            if next_index < tk.count() && st.at_top() && top_level_newline_after && !(sym
                == Sym::Comma && st.at_top()) {
                st = st.new_line();
            }
            assert(args_scan(tk, i as int, st0) == args_scan(tk, next_index as int, st.view()));
            i = next_index;
        } else {
            let top = st.at_top();
            st.saw_any = true;
            let next_index = i + 1;
            if next_index < tk.count() && top && tk.gap_has_newline(i, next_index) {
                st = st.new_line();
            }
            assert(args_scan(tk, i as int, st0) == args_scan(tk, next_index as int, st.view()));
            i = next_index;
        }
    }
    Some(st.metrics())
}

/// An annotation that ended just before `index` stays on the line of what it
/// annotates: inside parentheses or when it did not start a line; never at
/// the top level; outside a type body when it has no arguments; inside one
/// when it has none, does not mark declarations, and a nullness annotation
/// or a typed member (not a modifier, type keyword or primitive) follows.
pub closed spec fn keep_inline_annotation(
    tk: &Toks,
    index: int,
    in_type_body: bool,
    top_level_declaration: bool,
    annotation_name: Option<Seq<char>>,
    annotation_started_line_start: bool,
    annotation_has_args: bool,
    paren_depth: nat,
) -> bool {
    if paren_depth > 0 || !annotation_started_line_start {
        true
    } else if top_level_declaration {
        false
    } else if !in_type_body {
        !annotation_has_args
    } else if annotation_has_args || (annotation_name matches Some(t)
        && is_declaration_annotation_name(t)) {
        false
    } else {
        match next_text_spec(tk, index) {
            Some(w) => if w == "@"@ {
                annotation_name matches Some(t) && is_type_use_annotation_name(t)
            } else if spec_is_declaration_modifier(w) || is_type_keyword(w) || is_primitive_text(
                w,
            ) {
                false
            } else if forall|k: int| 0 <= k < w.len() ==> crate::lexer::spec_is_word_char(
                #[trigger] w[k],
            ) {
                typed_member_at(tk, index)
            } else {
                false
            },
            None => false,
        }
    }
}

/// An annotation that ended just before `index` stays on the line of what it
/// annotates.
pub fn should_keep_inline_annotation(
    tk: &Toks,
    index: usize,
    in_type_body: bool,
    top_level_declaration: bool,
    annotation_name: &Option<Vec<char>>,
    annotation_started_line_start: bool,
    annotation_has_args: bool,
    paren_depth: usize,
) -> (r: bool)
    requires
        tk.wf(),
    ensures
        r == keep_inline_annotation(
            tk,
            index as int,
            in_type_body,
            top_level_declaration,
            opt_view(*annotation_name),
            annotation_started_line_start,
            annotation_has_args,
            paren_depth as nat,
        ),
{
    if paren_depth > 0 || !annotation_started_line_start {
        return true;
    }
    if top_level_declaration {
        return false;
    }
    if !in_type_body {
        return !annotation_has_args;
    }
    if annotation_has_args || is_declaration_like_annotation(annotation_name) {
        return false;
    }
    let next_text = next_symbol_text(tk, index);
    match &next_text {
        Some(word) => {
            if text_is(word, "@") {
                is_type_use_friendly_annotation(annotation_name)
            } else if is_declaration_modifier(word) || is_type_declaration_keyword(word)
                || is_primitive_or_void(word) {
                false
            } else if is_word_like_text(word) {
                looks_like_typed_member(tk, index)
            } else {
                false
            }
        },
        None => false,
    }
}

/// An annotation after a modifier, after `new` outside a type body, or after
/// `@`, `.` or `::` starts on the current line.
pub fn should_start_annotation_inline(prev_text: &Option<Vec<char>>, in_type_body: bool) -> (r: bool)
    ensures
        r == ((prev_text matches Some(t) && spec_is_declaration_modifier(t@)) || (!in_type_body
            && (prev_text matches Some(t) && t@ == "new"@)) || (prev_text matches Some(t) && (t@
            == "@"@ || t@ == "."@ || t@ == "::"@))),
{
    let modifier = match prev_text {
        Some(t) => is_declaration_modifier(t),
        None => false,
    };
    modifier || (!in_type_body && opt_is(prev_text, "new")) || opt_is(prev_text, "@") || opt_is(
        prev_text,
        ".",
    ) || opt_is(prev_text, "::")
}

/// A type followed by a name starts at `index`.
pub open spec fn typed_member_at(tk: &Toks, index: int) -> bool {
    match type_end(tk, index) {
        None => false,
        Some(k) => k < tk.len() && kind_at(tk, k) == TokenKind::Word,
    }
}

/// A type followed by a name starts at `index`.
pub fn looks_like_typed_member(tk: &Toks, index: usize) -> (r: bool)
    requires
        tk.wf(),
    ensures
        r == typed_member_at(tk, index as int),
{
    match consume_type_like(tk, index) {
        None => false,
        Some(after_type) => after_type < tk.count() && tk.kind(after_type) == TokenKind::Word,
    }
}

/// Where a type that continues at token `i` ends: past dotted names, type
/// arguments and `[]` pairs; `None` when a `.` ends the tokens.
pub open spec fn type_end_from(tk: &Toks, i: int) -> Option<int>
    decreases tk.len() + 1 - i,
{
    if i < 0 || i >= tk.len() {
        Some(i)
    } else if kind_at(tk, i) != TokenKind::Symbol {
        Some(i)
    } else {
        let op = op_at(tk, i);
        let c = op_len(tk, i);
        proof {
            lemma_symbol_len(tk, i);
        }
        if op == Sym::Dot {
            if i + c >= tk.len() {
                None
            } else if kind_at(tk, i + c) != TokenKind::Word {
                Some(i)
            } else {
                type_end_from(tk, i + c + 1)
            }
        } else if op == Sym::Lt && is_type_args_at(tk, i) {
            let next = skip_args_from(tk, i, 0);
            proof {
                lemma_skip_args_bound(tk, i, 0);
            }
            if next <= i {
                Some(i)
            } else {
                type_end_from(tk, next)
            }
        } else if op == Sym::LBracket {
            if next_text_spec(tk, i + c) != Some("]"@) {
                Some(i)
            } else {
                proof {
                    lemma_symbol_len(tk, i + c);
                }
                type_end_from(tk, i + c + op_len(tk, i + c))
            }
        } else {
            Some(i)
        }
    }
}

/// Where a type that starts at token `index` ends (see `type_end_from`);
/// `None` unless a word that is no modifier, type keyword or primitive
/// starts it.
pub open spec fn type_end(tk: &Toks, index: int) -> Option<int> {
    if index < 0 || index >= tk.len() || kind_at(tk, index) != TokenKind::Word {
        None
    } else if spec_is_declaration_modifier(tk.texts@[index]@) || is_type_keyword(tk.texts@[index]@)
        || is_primitive_text(tk.texts@[index]@) {
        None
    } else {
        type_end_from(tk, index + 1)
    }
}

/// The skip ends within the tokens, past where it starts.
pub proof fn lemma_skip_args_bound(tk: &Toks, i: int, depth: nat)
    requires
        0 <= i,
    ensures
        i < tk.len() ==> i < skip_args_from(tk, i, depth) <= tk.len(),
        i >= tk.len() ==> skip_args_from(tk, i, depth) == i,
    decreases tk.len() - i,
{
    if 0 <= i < tk.len() {
        lemma_symbol_len(tk, i);
        if kind_at(tk, i) == TokenKind::Symbol {
            let op = op_at(tk, i);
            let next = i + op_len(tk, i);
            let d = if op == Sym::Lt {
                depth + 1
            } else if op == Sym::Gt {
                sub_sat(depth, 1)
            } else if op == Sym::GtGt {
                sub_sat(depth, 2)
            } else if op == Sym::GtGtGt {
                sub_sat(depth, 3)
            } else {
                depth
            };
            if d != 0 {
                lemma_skip_args_bound(tk, next, d);
            }
        } else {
            lemma_skip_args_bound(tk, i + 1, depth);
        }
    }
}

/// The position just past a type (a dotted name with type arguments and
/// array brackets) that starts at `index`.
pub fn consume_type_like(tk: &Toks, index: usize) -> (r: Option<usize>)
    requires
        tk.wf(),
    ensures
        match r {
            Some(k) => type_end(tk, index as int) == Some(k as int),
            None => type_end(tk, index as int) is None,
        },
        r matches Some(k) ==> index < k,
{
    if index >= tk.count() || tk.kind(index) != TokenKind::Word {
        return None;
    }
    if is_declaration_modifier(&tk.texts[index]) || is_type_declaration_keyword(&tk.texts[index])
        || is_primitive_or_void(&tk.texts[index]) {
        return None;
    }
    let mut i = index + 1;
    loop
        invariant
            tk.wf(),
            index < i <= tk.len(),
            type_end(tk, index as int) == type_end_from(tk, i as int),
        decreases tk.len() + 1 - i,
    {
        if i >= tk.count() {
            return Some(i);
        }
        if tk.kind(i) != TokenKind::Symbol {
            return Some(i);
        }
        let (symbol, consumed) = read_symbol(tk, i);
        let sym = classify_symbol(&symbol);
        assert(sym == op_at(tk, i as int));
        assert(consumed == op_len(tk, i as int));
        if sym == Sym::Dot {
            if i + consumed >= tk.count() {
                return None;
            }
            if tk.kind(i + consumed) != TokenKind::Word {
                return Some(i);
            }
            i = i + consumed + 1;
        } else if sym == Sym::Lt && looks_like_type_argument_list(tk, i) {
            let next = skip_type_arguments(tk, i);
            if next <= i {
                return Some(i);
            }
            i = next;
        } else if sym == Sym::LBracket {
            let next = next_symbol_text(tk, i + consumed);
            if !opt_is(&next, "]") {
                return Some(i);
            }
            i = i + consumed;
            let (_, close_consumed) = read_symbol(tk, i);
            assert(close_consumed == op_len(tk, i as int));
            i = i + close_consumed;
        } else {
            return Some(i);
        }
    }
}

/// Subtracts, but not below zero.
pub open spec fn sub_sat(n: nat, k: nat) -> nat {
    if n >= k {
        (n - k) as nat
    } else {
        0
    }
}

/// Where the type argument list that is open `depth` deep at token `i`
/// ends: just past the `>` that closes it, or at the end.
pub open spec fn skip_args_from(tk: &Toks, i: int, depth: nat) -> int
    decreases tk.len() - i,
{
    if i < 0 || i >= tk.len() {
        i
    } else if kind_at(tk, i) == TokenKind::Symbol {
        let op = op_at(tk, i);
        let next = i + op_len(tk, i);
        proof {
            lemma_symbol_len(tk, i);
        }
        let d = if op == Sym::Lt {
            depth + 1
        } else if op == Sym::Gt {
            sub_sat(depth, 1)
        } else if op == Sym::GtGt {
            sub_sat(depth, 2)
        } else if op == Sym::GtGtGt {
            sub_sat(depth, 3)
        } else {
            depth
        };
        if d == 0 {
            next
        } else {
            skip_args_from(tk, next, d)
        }
    } else {
        skip_args_from(tk, i + 1, depth)
    }
}

/// The position just past the type argument list that opens at `index`.
pub fn skip_type_arguments(tk: &Toks, index: usize) -> (r: usize)
    requires
        tk.wf(),
    ensures
        r == skip_args_from(tk, index as int, 0),
        index < tk.len() ==> index < r <= tk.len(),
        index >= tk.len() ==> r == index,
{
    let mut depth: usize = 0;
    let mut i = index;
    while i < tk.count()
        invariant_except_break
            skip_args_from(tk, index as int, 0) == skip_args_from(tk, i as int, depth as nat),
        invariant
            tk.wf(),
            index <= i,
            index < tk.len() ==> i <= tk.len(),
            index >= tk.len() ==> i == index,
            depth <= i,
        ensures
            skip_args_from(tk, index as int, 0) == i,
            index < tk.len() ==> index < i <= tk.len(),
            index >= tk.len() ==> i == index,
        decreases tk.len() - i,
    {
        if tk.kind(i) == TokenKind::Symbol {
            let (symbol, consumed) = read_symbol(tk, i);
            let sym = classify_symbol(&symbol);
            if sym == Sym::Lt {
                depth = depth + 1;
            } else if sym == Sym::Gt {
                depth = if depth >= 1 {
                    depth - 1
                } else {
                    0
                };
            } else if sym == Sym::GtGt {
                depth = if depth >= 2 {
                    depth - 2
                } else {
                    0
                };
            } else if sym == Sym::GtGtGt {
                depth = if depth >= 3 {
                    depth - 3
                } else {
                    0
                };
            }
            i = i + consumed;
            if depth == 0 {
                break ;
            }
        } else {
            i = i + 1;
        }
    }
    i
}

/// Names of annotations that mark declarations rather than types.
pub open spec fn is_declaration_annotation_name(t: Seq<char>) -> bool {
    t == "Deprecated"@ || t == "Override"@ || t == "SuppressWarnings"@ || t == "SafeVarargs"@ || t
        == "FunctionalInterface"@ || t == "Documented"@ || t == "Inherited"@ || t
        == "Repeatable"@ || t == "Retention"@ || t == "Target"@ || t == "Native"@
}

/// Names of nullness annotations.
pub open spec fn is_type_use_annotation_name(t: Seq<char>) -> bool {
    t == "Nullable"@ || t == "NonNull"@ || t == "Nonnull"@ || t == "CheckForNull"@ || t
        == "PolyNull"@ || t == "Untainted"@
}

/// Annotations that mark declarations rather than types.
pub fn is_declaration_like_annotation(annotation_name: &Option<Vec<char>>) -> (r: bool)
    ensures
        r == (opt_view(*annotation_name) matches Some(t) && is_declaration_annotation_name(t)),
{
    match annotation_name {
        Some(t) => text_is(t, "Deprecated") || text_is(t, "Override") || text_is(
            t,
            "SuppressWarnings",
        ) || text_is(t, "SafeVarargs") || text_is(t, "FunctionalInterface") || text_is(
            t,
            "Documented",
        ) || text_is(t, "Inherited") || text_is(t, "Repeatable") || text_is(t, "Retention")
            || text_is(t, "Target") || text_is(t, "Native"),
        None => false,
    }
}

/// Nullness annotations, which sit well next to the type they annotate.
pub fn is_type_use_friendly_annotation(annotation_name: &Option<Vec<char>>) -> (r: bool)
    ensures
        r == (opt_view(*annotation_name) matches Some(t) && is_type_use_annotation_name(t)),
{
    match annotation_name {
        Some(t) => text_is(t, "Nullable") || text_is(t, "NonNull") || text_is(t, "Nonnull")
            || text_is(t, "CheckForNull") || text_is(t, "PolyNull") || text_is(t, "Untainted"),
        None => false,
    }
}

/// Keywords whose `(` opens a condition or a resource list, never arguments.
pub open spec fn is_statement_keyword(t: Seq<char>) -> bool {
    t == "if"@ || t == "for"@ || t == "while"@ || t == "switch"@ || t == "catch"@ || t
        == "synchronized"@ || t == "try"@
}

/// The texts that close a type argument list.
pub open spec fn closes_type_args(t: Seq<char>) -> bool {
    t == ">"@ || t == ">>"@ || t == ">>>"@
}

/// Words after which a call starts an expression.
pub open spec fn is_expression_lead_word(t: Seq<char>) -> bool {
    t == "return"@ || t == "throw"@ || t == "yield"@ || t == "case"@ || t == "new"@ || t
        == "assert"@
}

/// Operators after which a call starts an expression or a member access:
/// all but `@`, closing brackets, `++`, `--`, `...` and unknown symbols.
pub open spec fn is_expression_lead_sym(s: Sym) -> bool {
    !(s == Sym::At || s == Sym::RBrace || s == Sym::RParen || s == Sym::RBracket || s
        == Sym::PlusPlus || s == Sym::MinusMinus || s == Sym::Ellipsis || s == Sym::Other)
}

/// Walking back from token `c` over comments and line breaks, the first
/// token is a symbol that closes a type argument list.
pub open spec fn type_args_close_before(tk: &Toks, c: int) -> bool
    decreases c,
{
    if c < 0 || c >= tk.len() {
        false
    } else if kind_at(tk, c) == TokenKind::Symbol {
        closes_type_args(symbol_at(tk, c).0)
    } else if kind_at(tk, c) == TokenKind::Word || kind_at(tk, c) == TokenKind::StringLiteral
        || kind_at(tk, c) == TokenKind::CharLiteral {
        false
    } else if c == 0 {
        false
    } else {
        type_args_close_before(tk, c - 1)
    }
}

/// The `(` at `index` follows `<...> name`, as in `Foo.<Bar>baz(`.
pub closed spec fn explicit_type_arg_call_at(tk: &Toks, index: int) -> bool {
    &&& 1 <= index
    &&& index - 1 < tk.len()
    &&& kind_at(tk, index - 1) == TokenKind::Word
    &&& type_args_close_before(tk, if index >= 2 { index - 2 } else { 0 })
}

/// The `(` at `index` opens the arguments of an invocation that may wrap:
/// one with explicit type arguments, or a name (or a closed type argument
/// list) that is not a statement keyword, itself after an operator or a
/// word that starts an expression.
pub closed spec fn wrappable_invocation_at(
    tk: &Toks,
    index: int,
    prev_kind: Option<TokenKind>,
    prev_text: Option<Seq<char>>,
) -> bool {
    explicit_type_arg_call_at(tk, index) || {
        &&& !(prev_text matches Some(t) && is_statement_keyword(t))
        &&& (prev_kind == Some(TokenKind::Word) || (prev_text matches Some(t) && closes_type_args(
            t,
        )))
        &&& 2 <= index
        &&& index - 2 < tk.len()
        &&& if kind_at(tk, index - 2) == TokenKind::Symbol {
            is_expression_lead_sym(op_at(tk, index - 2))
        } else if kind_at(tk, index - 2) == TokenKind::Word {
            is_expression_lead_word(tk.texts@[index - 2]@)
        } else {
            false
        }
    }
}

fn is_statement_keyword_text(o: &Option<Vec<char>>) -> (r: bool)
    ensures
        r == (opt_view(*o) matches Some(t) && is_statement_keyword(t)),
{
    match o {
        Some(t) => text_is(t, "if") || text_is(t, "for") || text_is(t, "while") || text_is(
            t,
            "switch",
        ) || text_is(t, "catch") || text_is(t, "synchronized") || text_is(t, "try"),
        None => false,
    }
}

fn closes_type_args_text(t: &[char]) -> (r: bool)
    ensures
        r == closes_type_args(t@),
{
    text_is(t, ">") || text_is(t, ">>") || text_is(t, ">>>")
}

/// The `(` at `index` opens the arguments of a method invocation whose
/// arguments may be wrapped.
pub fn is_wrappable_invocation_open_paren(
    tk: &Toks,
    index: usize,
    prev_kind: Option<TokenKind>,
    prev_text: &Option<Vec<char>>,
) -> (r: bool)
    requires
        tk.wf(),
    ensures
        r == wrappable_invocation_at(tk, index as int, prev_kind, opt_view(*prev_text)),
{
    if is_explicit_type_argument_call(tk, index) {
        return true;
    }
    if is_statement_keyword_text(prev_text) {
        return false;
    }
    let closed_args = match prev_text {
        Some(t) => closes_type_args_text(t),
        None => false,
    };
    if prev_kind != Some(TokenKind::Word) && !closed_args {
        return false;
    }
    if index < 2 || index - 2 >= tk.count() {
        return false;
    }
    let kind = tk.kind(index - 2);
    if kind == TokenKind::Symbol {
        let (symbol, _) = read_symbol(tk, index - 2);
        let sym = classify_symbol(&symbol);
        !(sym == Sym::At || sym == Sym::RBrace || sym == Sym::RParen || sym == Sym::RBracket
            || sym == Sym::PlusPlus || sym == Sym::MinusMinus || sym == Sym::Ellipsis || sym
            == Sym::Other)
    } else if kind == TokenKind::Word {
        let w = &tk.texts[index - 2];
        text_is(w, "return") || text_is(w, "throw") || text_is(w, "yield") || text_is(w, "case")
            || text_is(w, "new") || text_is(w, "assert")
    } else {
        false
    }
}

/// The `(` at `index` follows `<...> name`, as in `Foo.<Bar>baz(`.
pub fn is_explicit_type_argument_call(tk: &Toks, index: usize) -> (r: bool)
    requires
        tk.wf(),
    ensures
        r == explicit_type_arg_call_at(tk, index as int),
{
    if index == 0 || index - 1 >= tk.count() || tk.kind(index - 1) != TokenKind::Word {
        return false;
    }
    let mut cursor: usize = if index >= 2 {
        index - 2
    } else {
        0
    };
    loop
        invariant
            tk.wf(),
            1 <= index,
            index - 1 < tk.len(),
            kind_at(tk, index - 1) == TokenKind::Word,
            type_args_close_before(tk, if index >= 2 { index - 2 } else { 0 })
                == type_args_close_before(tk, cursor as int),
        decreases cursor,
    {
        if cursor >= tk.count() {
            return false;
        }
        let kind = tk.kind(cursor);
        if kind == TokenKind::Symbol {
            let (symbol, _) = read_symbol(tk, cursor);
            return closes_type_args_text(&symbol);
        }
        if kind == TokenKind::Word || kind == TokenKind::StringLiteral || kind
            == TokenKind::CharLiteral {
            return false;
        }
        if cursor == 0 {
            return false;
        }
        cursor = cursor - 1;
    }
}

/// What the scan of an assignment's right-hand side has seen so far.
pub struct RhsScan {
    pub paren: nat,
    pub bracket: nat,
    pub dots: nat,
    pub dots_after_call: nat,
    pub scanned: nat,
    pub sorted: bool,
    pub call: bool,
    pub angle: bool,
}

/// The scan before the first token.
pub open spec fn rhs_start() -> RhsScan {
    RhsScan {
        paren: 0,
        bracket: 0,
        dots: 0,
        dots_after_call: 0,
        scanned: 0,
        sorted: false,
        call: false,
        angle: false,
    }
}

/// The scan after the operator `op` at token `i`.
pub open spec fn rhs_apply(tk: &Toks, i: int, op: Sym, st: RhsScan) -> RhsScan {
    let top = st.paren == 0 && st.bracket == 0;
    if op == Sym::LParen {
        RhsScan { paren: st.paren + 1, call: st.call || top, ..st }
    } else if op == Sym::RParen {
        RhsScan { paren: dec(st.paren), ..st }
    } else if op == Sym::LBracket {
        RhsScan { bracket: st.bracket + 1, ..st }
    } else if op == Sym::RBracket {
        RhsScan { bracket: dec(st.bracket), ..st }
    } else if (op == Sym::Lt || op == Sym::Gt || op == Sym::GtGt || op == Sym::GtGtGt) && top {
        RhsScan { angle: true, ..st }
    } else if op == Sym::Dot && top {
        let after_call: nat = if i > 0 && tk.texts@[i - 1]@ == ")"@ {
            1
        } else {
            0
        };
        RhsScan { dots: st.dots + 1, dots_after_call: st.dots_after_call + after_call, ..st }
    } else {
        st
    }
}

/// The scan of a right-hand side from token `i` on: it ends at a top-level
/// `;` (counted) or at the end of the tokens.
pub open spec fn rhs_scan(tk: &Toks, i: int, st: RhsScan) -> RhsScan
    decreases tk.len() - i,
{
    if i < 0 || i >= tk.len() {
        st
    } else {
        let width = (tk.toks@[i].end - tk.toks@[i].start) as nat;
        let st1 = RhsScan {
            scanned: st.scanned + width,
            sorted: st.sorted || (kind_at(tk, i) == TokenKind::Word && tk.texts@[i]@
                == "sorted"@),
            ..st
        };
        if kind_at(tk, i) == TokenKind::Symbol {
            let op = op_at(tk, i);
            proof {
                lemma_symbol_len(tk, i);
            }
            if op == Sym::Semi && st1.paren == 0 && st1.bracket == 0 {
                st1
            } else {
                rhs_scan(tk, i + op_len(tk, i), rhs_apply(tk, i, op, st1))
            }
        } else {
            rhs_scan(tk, i + 1, st1)
        }
    }
}

/// A finished scan asks for a break: a `sorted` call chain, a long call
/// chain, a long generic call or a long member chain.
pub open spec fn rhs_breaks(st: RhsScan) -> bool {
    (st.dots_after_call >= 4 && st.scanned >= 60 && st.sorted) || (st.dots_after_call >= 3
        && st.scanned >= 90) || (st.scanned >= 90 && st.call && st.angle) || (st.dots >= 5
        && st.scanned >= 80)
}

/// The right-hand side of an assignment starting at `index` goes on a line
/// of its own: a switch expression, or a long call or member chain.
pub closed spec fn rhs_breaks_at(tk: &Toks, index: int) -> bool {
    (0 <= index < tk.len() && kind_at(tk, index) == TokenKind::Word && tk.texts@[index]@
        == "switch"@) || rhs_breaks(rhs_scan(tk, index, rhs_start()))
}

/// The scan state that the counters of `should_break_assignment_rhs` hold.
pub open spec fn rhs_state(
    paren: usize,
    bracket: usize,
    dots: usize,
    dots_after_call: usize,
    scanned: usize,
    sorted: bool,
    call: bool,
    angle: bool,
) -> RhsScan {
    RhsScan {
        paren: paren as nat,
        bracket: bracket as nat,
        dots: dots as nat,
        dots_after_call: dots_after_call as nat,
        scanned: scanned as nat,
        sorted,
        call,
        angle,
    }
}

/// The right-hand side of an assignment starting at `index` goes on a line
/// of its own: a switch expression, or a long call or member chain.
#[verifier::rlimit(40)]
pub fn should_break_assignment_rhs(tk: &Toks, index: usize) -> (r: bool)
    requires
        tk.wf(),
    ensures
        r == rhs_breaks_at(tk, index as int),
{
    if index < tk.count() && tk.kind(index) == TokenKind::Word && tk.is(index, "switch") {
        return true;
    }
    let mut local_paren_depth: usize = 0;
    let mut local_bracket_depth: usize = 0;
    let mut top_level_dot_count: usize = 0;
    let mut dot_after_call_count: usize = 0;
    let mut scanned_chars: usize = 0;
    let mut saw_sorted_call = false;
    let mut saw_top_level_method_call = false;
    let mut saw_top_level_angle = false;
    let mut i = index;
    if i > tk.count() {
        i = tk.count();
    }
    proof {
        lemma_end_before_bound(tk, i as int);
    }
    while i < tk.count()
        invariant_except_break
            scanned_chars <= tk.end_before(i as int),
            local_paren_depth <= i,
            local_bracket_depth <= i,
            top_level_dot_count <= i,
            dot_after_call_count <= top_level_dot_count,
            rhs_scan(tk, index as int, rhs_start()) == rhs_scan(
                tk,
                i as int,
                rhs_state(
                    local_paren_depth,
                    local_bracket_depth,
                    top_level_dot_count,
                    dot_after_call_count,
                    scanned_chars,
                    saw_sorted_call,
                    saw_top_level_method_call,
                    saw_top_level_angle,
                ),
            ),
        invariant
            tk.wf(),
            i <= tk.len(),
        ensures
            rhs_scan(tk, index as int, rhs_start()) == rhs_state(
                local_paren_depth,
                local_bracket_depth,
                top_level_dot_count,
                dot_after_call_count,
                scanned_chars,
                saw_sorted_call,
                saw_top_level_method_call,
                saw_top_level_angle,
            ),
        decreases tk.len() - i,
    {
        proof {
            lemma_end_before_step(tk, i as int, i + 1);
        }
        scanned_chars = scanned_chars + tk.width(i);
        if tk.kind(i) == TokenKind::Word && tk.is(i, "sorted") {
            saw_sorted_call = true;
        }
        let ghost st1 = rhs_state(
            local_paren_depth,
            local_bracket_depth,
            top_level_dot_count,
            dot_after_call_count,
            scanned_chars,
            saw_sorted_call,
            saw_top_level_method_call,
            saw_top_level_angle,
        );
        if tk.kind(i) == TokenKind::Symbol {
            let (symbol, consumed) = read_symbol(tk, i);
            proof {
                lemma_end_before_step(tk, i as int, i + consumed);
            }
            let sym = classify_symbol(&symbol);
            assert(sym == op_at(tk, i as int));
            assert(consumed == op_len(tk, i as int));
            if sym == Sym::Semi && local_paren_depth == 0 && local_bracket_depth == 0 {
                break ;
            } else if sym == Sym::LParen {
                if local_paren_depth == 0 && local_bracket_depth == 0 {
                    saw_top_level_method_call = true;
                }
                local_paren_depth = local_paren_depth + 1;
            } else if sym == Sym::RParen {
                local_paren_depth = if local_paren_depth > 0 {
                    local_paren_depth - 1
                } else {
                    0
                };
            } else if sym == Sym::LBracket {
                local_bracket_depth = local_bracket_depth + 1;
            } else if sym == Sym::RBracket {
                local_bracket_depth = if local_bracket_depth > 0 {
                    local_bracket_depth - 1
                } else {
                    0
                };
            } else if (sym == Sym::Lt || sym == Sym::Gt || sym == Sym::GtGt || sym == Sym::GtGtGt)
                && local_paren_depth == 0 && local_bracket_depth == 0 {
                saw_top_level_angle = true;
            } else if sym == Sym::Dot && local_paren_depth == 0 && local_bracket_depth == 0 {
                top_level_dot_count = top_level_dot_count + 1;
                if i > 0 && tk.is(i - 1, ")") {
                    dot_after_call_count = dot_after_call_count + 1;
                }
            }
            assert(rhs_state(
                local_paren_depth,
                local_bracket_depth,
                top_level_dot_count,
                dot_after_call_count,
                scanned_chars,
                saw_sorted_call,
                saw_top_level_method_call,
                saw_top_level_angle,
            ) == rhs_apply(tk, i as int, sym, st1));
            i = i + consumed;
        } else {
            i = i + 1;
        }
    }
    let sorted_chain = dot_after_call_count >= 4 && scanned_chars >= 60 && saw_sorted_call;
    let long_call_chain = dot_after_call_count >= 3 && scanned_chars >= 90;
    let long_generic_call = scanned_chars >= 90 && saw_top_level_method_call
        && saw_top_level_angle;
    let long_member_chain = top_level_dot_count >= 5 && scanned_chars >= 80;
    sorted_chain || long_call_chain || long_generic_call || long_member_chain
}

/// Whether the member tokens from `i` on, `depth` parentheses deep, reach
/// the end of the member (`{`, `;` or `}` outside parentheses) after a
/// parameter list (`saw`), without a top-level `=` first.
pub open spec fn method_member_from(tk: &Toks, i: int, depth: nat, saw: bool) -> bool
    decreases tk.len() - i,
{
    if i < 0 || i >= tk.len() {
        false
    } else if kind_at(tk, i) == TokenKind::Symbol {
        let op = op_at(tk, i);
        let next = i + op_len(tk, i);
        proof {
            lemma_symbol_len(tk, i);
        }
        if op == Sym::LParen {
            method_member_from(tk, next, depth + 1, saw || depth == 0)
        } else if op == Sym::RParen {
            method_member_from(tk, next, dec(depth), saw)
        } else if op == Sym::Assign && depth == 0 {
            false
        } else if (op == Sym::LBrace || op == Sym::Semi || op == Sym::RBrace) && depth == 0 {
            saw
        } else {
            method_member_from(tk, next, depth, saw)
        }
    } else {
        method_member_from(tk, i + 1, depth, saw)
    }
}

/// The member that starts at `index` has a parameter list before its body.
pub fn next_member_looks_like_method(tk: &Toks, index: usize) -> (r: bool)
    requires
        tk.wf(),
    ensures
        r == method_member_from(tk, index as int, 0, false),
{
    let mut local_paren_depth: usize = 0;
    let mut saw_signature_paren = false;
    let mut i = index;
    while i < tk.count()
        invariant
            tk.wf(),
            local_paren_depth <= i,
            method_member_from(tk, index as int, 0, false) == method_member_from(
                tk,
                i as int,
                local_paren_depth as nat,
                saw_signature_paren,
            ),
        decreases tk.len() - i,
    {
        if tk.kind(i) == TokenKind::Symbol {
            let (symbol, consumed) = read_symbol(tk, i);
            let sym = classify_symbol(&symbol);
            assert(sym == op_at(tk, i as int));
            assert(consumed == op_len(tk, i as int));
            if sym == Sym::LParen {
                local_paren_depth = local_paren_depth + 1;
                if local_paren_depth == 1 {
                    saw_signature_paren = true;
                }
            } else if sym == Sym::RParen {
                local_paren_depth = if local_paren_depth > 0 {
                    local_paren_depth - 1
                } else {
                    0
                };
            } else if sym == Sym::Assign && local_paren_depth == 0 {
                return false;
            } else if (sym == Sym::LBrace || sym == Sym::Semi || sym == Sym::RBrace)
                && local_paren_depth == 0 {
                return saw_signature_paren;
            }
            i = i + consumed;
        } else {
            i = i + 1;
        }
    }
    false
}

/// A space goes between the previous text and the current one: not at the
/// start of a line, not after an opening bracket, `.`, `@`, `::`, `<`, `<<`
/// or a prefix operator, and not before a closing bracket, `.`, `,`, `;` or
/// `::`.
pub open spec fn space_needed(prev: Option<Seq<char>>, curr: Seq<char>, at_line_start: bool) -> bool {
    !at_line_start && (prev matches Some(p) && !(p == "("@ || p == "["@ || p == "{"@ || p == "."@
        || p == "@"@ || p == "::"@ || p == "<"@ || p == "<<"@ || p == "+"@ || p == "-"@ || p
        == "!"@ || p == "~"@)) && !(curr == ")"@ || curr == "]"@ || curr == "."@ || curr == ","@
        || curr == ";"@ || curr == "::"@)
}

/// A space goes between the previous text and the current one.
pub fn needs_space_before(prev_text: &Option<Vec<char>>, curr_text: &[char], at_line_start: bool) -> (r: bool)
    ensures
        r == space_needed(opt_view(*prev_text), curr_text@, at_line_start),
{
    if at_line_start {
        return false;
    }
    match prev_text {
        None => false,
        Some(prev) => {
            if text_is(prev, "(") || text_is(prev, "[") || text_is(prev, "{") || text_is(prev, ".")
                || text_is(prev, "@") || text_is(prev, "::") || text_is(prev, "<") || text_is(
                prev,
                "<<",
            ) || text_is(prev, "+") || text_is(prev, "-") || text_is(prev, "!") || text_is(
                prev,
                "~",
            ) {
                return false;
            }
            if text_is(curr_text, ")") || text_is(curr_text, "]") || text_is(curr_text, ".")
                || text_is(curr_text, ",") || text_is(curr_text, ";") || text_is(curr_text, "::") {
                return false;
            }
            true
        },
    }
}

/// A space goes before `(` after these keywords.
pub fn needs_space_before_open_paren(prev_text: &Option<Vec<char>>) -> (r: bool)
    ensures
        r == (prev_text matches Some(p) && (p@ == "if"@ || p@ == "for"@ || p@ == "while"@ || p@
            == "switch"@ || p@ == "catch"@ || p@ == "synchronized"@ || p@ == "try"@)),
{
    opt_is(prev_text, "if") || opt_is(prev_text, "for") || opt_is(prev_text, "while") || opt_is(
        prev_text,
        "switch",
    ) || opt_is(prev_text, "catch") || opt_is(prev_text, "synchronized") || opt_is(
        prev_text,
        "try",
    )
}

/// A word, or punctuation that occurs inside type arguments.
pub open spec fn word_like_or_type_punct_spec(t: Option<Seq<char>>) -> bool {
    t matches Some(w) && ((forall|k: int| 0 <= k < w.len() ==> crate::lexer::spec_is_word_char(
        #[trigger] w[k],
    )) || w == "?"@ || w == ">"@ || w == ","@ || w == "["@ || w == "]"@)
}

fn word_like_or_type_punct(t: &Option<Vec<char>>) -> (r: bool)
    ensures
        r == word_like_or_type_punct_spec(opt_view(*t)),
{
    match t {
        Some(text) => is_word_like_text(text) || text_is(text, "?") || text_is(text, ">")
            || text_is(text, ",") || text_is(text, "[") || text_is(text, "]"),
        None => false,
    }
}

/// The `<` at `index` opens type arguments: `<>` before `(` after a value,
/// `.` or `new`; or a list that reads as type arguments, at a line start,
/// after `.`, `<`, `,`, `?`, `&` or `new`, or after a value or `<`, `,`,
/// `?` when a word or type punctuation follows.
pub closed spec fn generic_open_angle_at(
    tk: &Toks,
    index: int,
    prev_kind: Option<TokenKind>,
    prev_text: Option<Seq<char>>,
    next_text: Option<Seq<char>>,
    at_line_start: bool,
) -> bool {
    let prev_is_value = prev_kind == Some(TokenKind::Word) || prev_kind == Some(
        TokenKind::StringLiteral,
    ) || prev_kind == Some(TokenKind::CharLiteral);
    let opens_list = prev_text matches Some(p) && (p == "<"@ || p == ","@ || p == "?"@);
    ||| (next_text == Some(">"@) && next_text_spec(tk, index + 2) == Some("("@) && (prev_is_value
        || prev_text == Some("."@) || prev_text == Some("new"@)))
    ||| (is_type_args_at(tk, index) && (at_line_start || (prev_text matches Some(p) && (p == "."@
        || p == "<"@ || p == ","@ || p == "?"@ || p == "&"@ || p == "new"@)) || ((prev_is_value
        || opens_list) && word_like_or_type_punct_spec(next_text))))
}

/// The `<` at `index` opens type arguments rather than comparing.
pub fn is_generic_open_angle(
    tk: &Toks,
    index: usize,
    prev_kind: Option<TokenKind>,
    prev_text: &Option<Vec<char>>,
    next_text: &Option<Vec<char>>,
    at_line_start: bool,
) -> (r: bool)
    requires
        tk.wf(),
    ensures
        r == generic_open_angle_at(
            tk,
            index as int,
            prev_kind,
            opt_view(*prev_text),
            opt_view(*next_text),
            at_line_start,
        ),
{
    let prev_is_value = prev_kind == Some(TokenKind::Word) || prev_kind == Some(
        TokenKind::StringLiteral,
    ) || prev_kind == Some(TokenKind::CharLiteral);
    if opt_is(next_text, ">") {
        if index < usize::MAX - 2 {
            let after = next_symbol_text(tk, index + 2);
            if opt_is(&after, "(") && (prev_is_value || opt_is(prev_text, ".") || opt_is(
                prev_text,
                "new",
            )) {
                return true;
            }
        } else {
            assert(next_text_spec(tk, index + 2) is None);
        }
    }
    if !looks_like_type_argument_list(tk, index) {
        return false;
    }
    if at_line_start || opt_is(prev_text, ".") || opt_is(prev_text, "<") || opt_is(prev_text, ",")
        || opt_is(prev_text, "?") || opt_is(prev_text, "&") || opt_is(prev_text, "new") {
        return true;
    }
    if prev_is_value && word_like_or_type_punct(next_text) {
        return true;
    }
    if (opt_is(prev_text, "<") || opt_is(prev_text, ",") || opt_is(prev_text, "?"))
        && word_like_or_type_punct(next_text) {
        return true;
    }
    false
}

/// Whether the tokens from `i` on, `depth` angle brackets deep, close the
/// brackets as a type argument list that names a type, given whether a type
/// word was seen already.
pub open spec fn type_args_from(tk: &Toks, i: int, depth: nat, saw: bool) -> bool
    decreases tk.len() - i,
{
    if i < 0 || i >= tk.len() {
        false
    } else if kind_at(tk, i) == TokenKind::Word {
        let w = tk.texts@[i]@;
        type_args_from(tk, i + 1, depth, saw || !(w == "extends"@ || w == "super"@))
    } else if kind_at(tk, i) == TokenKind::Symbol {
        let op = op_at(tk, i);
        let next = i + op_len(tk, i);
        proof {
            lemma_symbol_len(tk, i);
        }
        if op == Sym::Lt {
            type_args_from(tk, next, depth + 1, saw)
        } else if op == Sym::Gt {
            if dec(depth) == 0 {
                saw
            } else {
                type_args_from(tk, next, dec(depth), saw)
            }
        } else if op == Sym::GtGt {
            if depth == 0 {
                false
            } else if depth <= 2 {
                saw
            } else {
                type_args_from(tk, next, (depth - 2) as nat, saw)
            }
        } else if op == Sym::GtGtGt {
            if depth == 0 {
                false
            } else if depth <= 3 {
                saw
            } else {
                type_args_from(tk, next, (depth - 3) as nat, saw)
            }
        } else if op == Sym::Comma || op == Sym::Dot || op == Sym::Question || op == Sym::LBracket
            || op == Sym::RBracket || op == Sym::Amp {
            type_args_from(tk, next, depth, saw)
        } else {
            false
        }
    } else if kind_at(tk, i) == TokenKind::Whitespace || kind_at(tk, i) == TokenKind::Newline {
        type_args_from(tk, i + 1, depth, saw)
    } else {
        false
    }
}

/// The `<` at `index` opens a list of type arguments.
pub open spec fn is_type_args_at(tk: &Toks, index: int) -> bool {
    0 <= index < tk.len() && type_args_from(tk, index + 1, 1, false)
}

/// The tokens after the `<` at `index` read as a type argument list.
pub fn looks_like_type_argument_list(tk: &Toks, index: usize) -> (r: bool)
    requires
        tk.wf(),
    ensures
        r == is_type_args_at(tk, index as int),
{
    let mut depth: usize = 1;
    let mut saw_type_token = false;
    if index >= tk.count() {
        return false;
    }
    let mut i = index + 1;
    while i < tk.count()
        invariant
            tk.wf(),
            index < i,
            depth <= i + 1,
            depth >= 1,
            is_type_args_at(tk, index as int) == type_args_from(
                tk,
                i as int,
                depth as nat,
                saw_type_token,
            ),
        decreases tk.len() - i,
    {
        match tk.kind(i) {
            TokenKind::Word => {
                if !tk.is(i, "extends") && !tk.is(i, "super") {
                    saw_type_token = true;
                }
                i = i + 1;
            },
            TokenKind::Symbol => {
                let (symbol, consumed) = read_symbol(tk, i);
                let sym = classify_symbol(&symbol);
                if sym == Sym::Lt {
                    depth = depth + 1;
                } else if sym == Sym::Gt {
                    depth = if depth > 0 {
                        depth - 1
                    } else {
                        0
                    };
                    if depth == 0 {
                        return saw_type_token;
                    }
                } else if sym == Sym::GtGt {
                    if depth == 0 {
                        return false;
                    }
                    if depth <= 2 {
                        return saw_type_token;
                    }
                    depth = depth - 2;
                } else if sym == Sym::GtGtGt {
                    if depth == 0 {
                        return false;
                    }
                    if depth <= 3 {
                        return saw_type_token;
                    }
                    depth = depth - 3;
                } else if sym == Sym::Comma || sym == Sym::Dot || sym == Sym::Question || sym
                    == Sym::LBracket || sym == Sym::RBracket || sym == Sym::Amp {
                } else {
                    return false;
                }
                i = i + consumed;
            },
            TokenKind::Whitespace | TokenKind::Newline => {
                i = i + 1;
            },
            _ => return false,
        }
    }
    false
}

/// After a closing `>`, a word followed by `(` needs no space: `<T>m(`.
pub fn is_tight_after_generic_close(prev_text: &Option<Vec<char>>, tk: &Toks, word_index: usize) -> (r: bool)
    requires
        tk.wf(),
    ensures
        r == ((opt_view(*prev_text) matches Some(p) && closes_type_args(p)) && next_text_spec(
            tk,
            word_index + 1,
        ) == Some("("@)),
{
    let closed = match prev_text {
        Some(t) => closes_type_args_text(t),
        None => false,
    };
    if !closed {
        return false;
    }
    if word_index >= usize::MAX - 1 {
        assert(next_text_spec(tk, word_index + 1) is None);
        return false;
    }
    let next = next_symbol_text(tk, word_index + 1);
    opt_is(&next, "(")
}

/// Whether the brace that opens at or after token `i` (with `depth` braces
/// open, `scanned` characters and `commas` top-level commas seen, and a
/// comment seen or not) closes as a short initializer: no comment, at most
/// two commas and at most forty characters, without a `;` inside.
pub open spec fn inline_brace_from(
    tk: &Toks,
    i: int,
    depth: nat,
    scanned: nat,
    commas: nat,
    comment: bool,
) -> bool
    decreases tk.len() - i,
{
    if i < 0 || i >= tk.len() {
        false
    } else {
        let scanned1 = scanned + (tk.toks@[i].end - tk.toks@[i].start) as nat;
        let comment1 = comment || kind_at(tk, i) == TokenKind::LineComment || kind_at(tk, i)
            == TokenKind::BlockComment;
        if kind_at(tk, i) != TokenKind::Symbol {
            inline_brace_from(tk, i + 1, depth, scanned1, commas, comment1)
        } else {
            let op = op_at(tk, i);
            let next = i + op_len(tk, i);
            proof {
                lemma_symbol_len(tk, i);
            }
            if op == Sym::LBrace {
                inline_brace_from(tk, next, depth + 1, scanned1, commas, comment1)
            } else if op == Sym::RBrace {
                if dec(depth) == 0 {
                    !comment1 && commas <= 2 && scanned1 <= 40
                } else {
                    inline_brace_from(tk, next, dec(depth), scanned1, commas, comment1)
                }
            } else if op == Sym::Comma && depth == 1 {
                inline_brace_from(tk, next, depth, scanned1, commas + 1, comment1)
            } else if op == Sym::Semi && depth == 1 {
                false
            } else {
                inline_brace_from(tk, next, depth, scanned1, commas, comment1)
            }
        }
    }
}

/// The `{` at `index` opens a short array initializer that stays on one line.
pub fn is_inline_initializer_brace(tk: &Toks, index: usize, prev_text: &Option<Vec<char>>) -> (r: bool)
    requires
        tk.wf(),
    ensures
        r == ((opt_view(*prev_text) == Some("]"@) || opt_view(*prev_text) == Some("="@))
            && inline_brace_from(tk, index as int, 0, 0, 0, false)),
{
    if !opt_is(prev_text, "]") && !opt_is(prev_text, "=") {
        return false;
    }
    let mut depth: usize = 0;
    let mut scanned_chars: usize = 0;
    let mut top_level_comma_count: usize = 0;
    let mut has_comment = false;
    let mut i = index;
    if i > tk.count() {
        i = tk.count();
    }
    proof {
        lemma_end_before_bound(tk, i as int);
    }
    while i < tk.count()
        invariant
            tk.wf(),
            i <= tk.len(),
            scanned_chars <= tk.end_before(i as int),
            depth <= i,
            top_level_comma_count <= i,
            opt_view(*prev_text) == Some("]"@) || opt_view(*prev_text) == Some("="@),
            inline_brace_from(tk, index as int, 0, 0, 0, false) == inline_brace_from(
                tk,
                i as int,
                depth as nat,
                scanned_chars as nat,
                top_level_comma_count as nat,
                has_comment,
            ),
        decreases tk.len() - i,
    {
        proof {
            lemma_end_before_step(tk, i as int, i + 1);
        }
        scanned_chars = scanned_chars + tk.width(i);
        let kind = tk.kind(i);
        if kind == TokenKind::LineComment || kind == TokenKind::BlockComment {
            has_comment = true;
        }
        if kind != TokenKind::Symbol {
            i = i + 1;
            continue ;
        }
        let (symbol, consumed) = read_symbol(tk, i);
        proof {
            lemma_end_before_step(tk, i as int, i + consumed);
        }
        let sym = classify_symbol(&symbol);
        assert(sym == op_at(tk, i as int));
        assert(consumed == op_len(tk, i as int));
        if sym == Sym::LBrace {
            depth = depth + 1;
        } else if sym == Sym::RBrace {
            depth = if depth > 0 {
                depth - 1
            } else {
                0
            };
            if depth == 0 {
                return !has_comment && top_level_comma_count <= 2 && scanned_chars <= 40;
            }
        } else if sym == Sym::Comma && depth == 1 {
            top_level_comma_count = top_level_comma_count + 1;
        } else if sym == Sym::Semi && depth == 1 {
            return false;
        }
        i = i + consumed;
    }
    false
}

fn is_digits_or_underscores(t: &[char]) -> (r: bool)
    ensures
        r == digits_or_underscores(t@),
{
    let mut k: usize = 0;
    while k < t.len()
        invariant
            k <= t@.len(),
            forall|j: int| 0 <= j < k ==> (('0' <= #[trigger] t@[j] && t@[j] <= '9') || t@[j] == '_'),
        decreases t@.len() - k,
    {
        let c = t[k];
        if !(('0' <= c && c <= '9') || c == '_') {
            return false;
        }
        k = k + 1;
    }
    true
}

/// A `+` or `-` between an exponent marker and digits, as in `1.23e-4`.
pub open spec fn exponent_sign_context(prev: Option<Seq<char>>, next: Option<Seq<char>>) -> bool {
    match (prev, next) {
        (Some(p), Some(n)) => p.len() > 0 && (p.last() == 'e' || p.last() == 'E')
            && digits_or_underscores(n),
        _ => false,
    }
}

/// Every character is a decimal digit or `_`.
pub open spec fn digits_or_underscores(n: Seq<char>) -> bool {
    forall|k: int| 0 <= k < n.len() ==> (('0' <= #[trigger] n[k] && n[k] <= '9') || n[k] == '_')
}

/// A `+` or `-` between an exponent marker and digits, as in `1.23e-4`.
pub fn is_exponent_sign_context(prev_text: &Option<Vec<char>>, next_text: &Option<Vec<char>>) -> (r: bool)
    ensures
        r == exponent_sign_context(opt_view(*prev_text), opt_view(*next_text)),
{
    match (prev_text, next_text) {
        (Some(prev), Some(next)) => {
            let ends_with_exponent = crate::text::ends_with_char(prev, 'e')
                || crate::text::ends_with_char(prev, 'E');
            let digits = is_digits_or_underscores(next);
            ends_with_exponent && digits
        },
        _ => false,
    }
}

/// A `.` after `)` goes on a new line when the current output line already
/// is a chain line, a `return`, or holds two or more dots.
pub closed spec fn chained_dot_breaks(line: Seq<char>) -> bool {
    seq_starts_with(spec_trim_start(line), "."@) || seq_starts_with(spec_trim_start(line), "return "@)
        || count_char(line, '.') >= 2
}

/// A `.` after `)` goes on a new line when the current output line already
/// is a chain line, a `return`, or holds two or more dots.
pub fn should_break_before_chained_dot(out: &Vec<char>) -> (r: bool)
    ensures
        r == (out@.len() > 0 && chained_dot_breaks(tail_line(out@))),
{
    match current_output_line(out) {
        None => false,
        Some(line) => {
            let trimmed = trim_start_chars(&line);
            if crate::text::starts_with(&trimmed, ".") || crate::text::starts_with(
                &trimmed,
                "return ",
            ) {
                return true;
            }
            let mut dots: usize = 0;
            let mut k: usize = 0;
            while k < line.len()
                invariant
                    k <= line@.len(),
                    dots == count_char(line@.subrange(0, k as int), '.'),
                decreases line@.len() - k,
            {
                proof {
                    assert(line@.subrange(0, k + 1).drop_last() =~= line@.subrange(0, k as int));
                    lemma_count_char_bound(line@.subrange(0, k as int), '.');
                }
                if line[k] == '.' {
                    dots = dots + 1;
                }
                k = k + 1;
            }
            assert(line@.subrange(0, line@.len() as int) =~= line@);
            dots >= 2
        },
    }
}

/// A count is at most the length.
pub proof fn lemma_count_char_bound(s: Seq<char>, c: char)
    ensures
        count_char(s, c) <= s.len(),
    decreases s.len(),
{
    if s.len() > 0 {
        lemma_count_char_bound(s.drop_last(), c);
    }
}

/// The metrics call for breaking the arguments of a call.
pub open spec fn metrics_break(m: CallArgumentMetrics) -> bool {
    ||| m.has_top_level_initializer
    ||| (m.scanned_chars >= 30 && m.top_level_comma_count >= 1)
    ||| (m.scanned_chars >= 60 && m.top_level_comma_count >= 1)
    ||| (m.saw_top_level_newline && m.max_input_line_args > 2)
    ||| m.first_arg_has_call
    ||| m.top_level_call_arg_count >= 2
    ||| m.has_comment
}

/// Where the member name after a `.` ends: after the first word, past type
/// arguments; `None` when something else comes first.
pub open spec fn member_name_end(tk: &Toks, i: int) -> Option<int>
    decreases tk.len() - i,
{
    if i < 0 || i >= tk.len() {
        Some(i)
    } else if kind_at(tk, i) == TokenKind::Word {
        Some(i + 1)
    } else if kind_at(tk, i) == TokenKind::Symbol {
        proof {
            lemma_symbol_len(tk, i);
        }
        if symbol_at(tk, i).0 != "<"@ {
            None
        } else {
            member_name_end(tk, i + op_len(tk, i))
        }
    } else {
        member_name_end(tk, i + 1)
    }
}

/// Whether the next symbol from `i` on is a `(` whose arguments call for
/// breaking.
pub open spec fn call_after_breaks(tk: &Toks, i: int) -> bool
    decreases tk.len() - i,
{
    if i < 0 || i >= tk.len() {
        false
    } else if kind_at(tk, i) != TokenKind::Symbol {
        call_after_breaks(tk, i + 1)
    } else if symbol_at(tk, i).0 != "("@ {
        false
    } else {
        metrics_break(args_scan(tk, i + op_len(tk, i), arg_start()))
    }
}

/// The member called after the `.` at `index` has arguments that call for
/// breaking.
pub open spec fn dotted_call_breaks(tk: &Toks, index: int) -> bool {
    match member_name_end(tk, index) {
        None => false,
        Some(j) => call_after_breaks(tk, j),
    }
}

/// The call that follows the `.` before `index` breaks its arguments.
pub fn next_dotted_member_call_breaks(tk: &Toks, index: usize) -> (r: bool)
    requires
        tk.wf(),
    ensures
        r == dotted_call_breaks(tk, index as int),
{
    let mut i = index;
    while i < tk.count()
        invariant_except_break
            member_name_end(tk, index as int) == member_name_end(tk, i as int),
        invariant
            tk.wf(),
            index <= i,
        ensures
            member_name_end(tk, index as int) == Some(i as int) || (i >= tk.len()
                && member_name_end(tk, index as int) == Some(i as int)),
        decreases tk.len() - i,
    {
        match tk.kind(i) {
            TokenKind::Word => {
                i = i + 1;
                break ;
            },
            TokenKind::Symbol => {
                let (symbol, consumed) = read_symbol(tk, i);
                if !text_is(&symbol, "<") {
                    return false;
                }
                i = i + consumed;
            },
            _ => {
                i = i + 1;
            },
        }
    }
    while i < tk.count()
        invariant
            tk.wf(),
            dotted_call_breaks(tk, index as int) == call_after_breaks(tk, i as int),
        decreases tk.len() - i,
    {
        if tk.kind(i) != TokenKind::Symbol {
            i = i + 1;
            continue ;
        }
        let (symbol, consumed) = read_symbol(tk, i);
        if !text_is(&symbol, "(") {
            return false;
        }
        return match call_arguments_break_metrics(tk, i + consumed) {
            Some(metrics) => metrics.should_break_short() || metrics.should_break_long()
                || metrics.should_force_vertical() || metrics.has_comment(),
            None => false,
        };
    }
    false
}

/// The name of the method called right after a chain `.`, scanning from `i`
/// with the name found so far: one word, then type arguments, then `(`.
pub open spec fn chain_name_from(tk: &Toks, i: int, name: Option<Seq<char>>) -> Option<Seq<char>>
    decreases tk.len() - i,
{
    if i < 0 || i >= tk.len() {
        None
    } else if kind_at(tk, i) == TokenKind::Word {
        if name is None {
            chain_name_from(tk, i + 1, Some(tk.texts@[i]@))
        } else {
            None
        }
    } else if kind_at(tk, i) == TokenKind::Symbol {
        let t = symbol_at(tk, i).0;
        proof {
            lemma_symbol_len(tk, i);
        }
        if t == "<"@ {
            chain_name_from(tk, i + op_len(tk, i), name)
        } else if t == "("@ {
            name
        } else {
            None
        }
    } else {
        chain_name_from(tk, i + 1, name)
    }
}

/// The name of the method called right after a chain `.`.
fn next_chain_member_call_name(tk: &Toks, index: usize) -> (r: Option<Vec<char>>)
    requires
        tk.wf(),
    ensures
        opt_view(r) == chain_name_from(tk, index as int, None),
{
    let mut member_name: Option<Vec<char>> = None;
    let mut i = index;
    while i < tk.count()
        invariant
            tk.wf(),
            index <= i,
            chain_name_from(tk, index as int, None) == chain_name_from(
                tk,
                i as int,
                opt_view(member_name),
            ),
        decreases tk.len() - i,
    {
        match tk.kind(i) {
            TokenKind::Word => {
                if member_name.is_none() {
                    member_name = Some(tk.text(i));
                    i = i + 1;
                    continue ;
                }
                return None;
            },
            TokenKind::Symbol => {
                let (symbol, consumed) = read_symbol(tk, i);
                if text_is(&symbol, "<") {
                    i = i + consumed;
                    continue ;
                }
                if text_is(&symbol, "(") {
                    return member_name;
                }
                return None;
            },
            _ => {
                i = i + 1;
            },
        }
    }
    None
}

fn is_chain_prefix_method(name: &[char]) -> (r: bool)
    ensures
        r == (name@ == "stream"@ || name@ == "parallelStream"@ || name@ == "toBuilder"@),
{
    text_is(name, "stream") || text_is(name, "parallelStream") || text_is(name, "toBuilder")
}

/// Where the last line of `s` starts: just past its last newline.
pub open spec fn last_line_start(s: Seq<char>) -> int
    decreases s.len(),
{
    if s.len() == 0 {
        0
    } else if s.last() == '\n' {
        s.len() as int
    } else {
        last_line_start(s.drop_last())
    }
}

/// The last line of `s`: what follows its last newline.
pub open spec fn tail_line(s: Seq<char>) -> Seq<char> {
    s.subrange(last_line_start(s), s.len() as int)
}

/// The number of times `c` occurs in `s`.
pub open spec fn count_char(s: Seq<char>, c: char) -> nat
    decreases s.len(),
{
    if s.len() == 0 {
        0
    } else {
        count_char(s.drop_last(), c) + if s.last() == c {
            1nat
        } else {
            0nat
        }
    }
}

/// The last line of the output so far (after its last newline); none when
/// nothing has been written.
pub fn current_output_line(out: &Vec<char>) -> (r: Option<Vec<char>>)
    ensures
        out@.len() == 0 ==> r is None,
        out@.len() > 0 ==> (r matches Some(line) && line@ == tail_line(out@)),
        out@.len() > 0 ==> (r matches Some(line) && !line@.contains('\n') && crate::text::seq_ends_with(
            out@,
            line@,
        ) && (line@.len() < out@.len() ==> out@[out@.len() - line@.len() - 1] == '\n')),
{
    if out.len() == 0 {
        return None;
    }
    let mut k = out.len();
    assert(out@.subrange(0, k as int) =~= out@);
    while k > 0 && out[k - 1] != '\n'
        invariant
            k <= out@.len(),
            forall|j: int| k <= j < out@.len() ==> out@[j] != '\n',
            last_line_start(out@) == last_line_start(out@.subrange(0, k as int)),
        decreases k,
    {
        assert(out@.subrange(0, k as int).drop_last() =~= out@.subrange(0, k - 1));
        k = k - 1;
    }
    let line = crate::text::sub_chars(out, k, out.len());
    assert(!line@.contains('\n')) by {
        assert forall|j: int| 0 <= j < line@.len() implies line@[j] != '\n' by {
            assert(line@[j] == out@[k + j]);
        }
    }
    assert(out@.subrange(out@.len() - line@.len(), out@.len() as int) =~= line@);
    Some(line)
}

/// Letters, digits and underscores only.
pub fn is_word_like_text(text: &[char]) -> (r: bool)
    ensures
        r == forall|k: int| 0 <= k < text@.len() ==> crate::lexer::spec_is_word_char(#[trigger] text@[k]),
{
    let mut k: usize = 0;
    while k < text.len()
        invariant
            k <= text@.len(),
            forall|j: int| 0 <= j < k ==> crate::lexer::spec_is_word_char(#[trigger] text@[j]),
        decreases text@.len() - k,
    {
        if !crate::lexer::is_word_char(text[k]) {
            return false;
        }
        k = k + 1;
    }
    true
}

pub open spec fn spec_is_declaration_modifier(t: Seq<char>) -> bool {
    t == "public"@ || t == "protected"@ || t == "private"@ || t == "static"@ || t == "final"@ || t
        == "abstract"@ || t == "default"@ || t == "native"@ || t == "strictfp"@ || t
        == "synchronized"@ || t == "transient"@ || t == "volatile"@ || t == "sealed"@ || t
        == "non"@
}

/// Declaration modifiers (`non` being the start of `non-sealed`).
pub fn is_declaration_modifier(text: &[char]) -> (r: bool)
    ensures
        r == spec_is_declaration_modifier(text@),
{
    text_is(text, "public") || text_is(text, "protected") || text_is(text, "private") || text_is(
        text,
        "static",
    ) || text_is(text, "final") || text_is(text, "abstract") || text_is(text, "default")
        || text_is(text, "native") || text_is(text, "strictfp") || text_is(text, "synchronized")
        || text_is(text, "transient") || text_is(text, "volatile") || text_is(text, "sealed")
        || text_is(text, "non")
}

/// The primitive types and `void`.
pub open spec fn is_primitive_text(text: Seq<char>) -> bool {
    text == "void"@ || text == "boolean"@ || text == "byte"@ || text == "short"@ || text == "int"@
        || text == "long"@ || text == "char"@ || text == "float"@ || text == "double"@
}

/// The primitive types and `void`.
pub fn is_primitive_or_void(text: &[char]) -> (r: bool)
    ensures
        r == is_primitive_text(text@),
{
    text_is(text, "void") || text_is(text, "boolean") || text_is(text, "byte") || text_is(
        text,
        "short",
    ) || text_is(text, "int") || text_is(text, "long") || text_is(text, "char") || text_is(
        text,
        "float",
    ) || text_is(text, "double")
}

/// The texts after which `+`, `-`, `!` or `~` is a unary prefix operator.
pub open spec fn unary_context_text(t: Seq<char>) -> bool {
    t == "("@ || t == "["@ || t == "{"@ || t == ","@ || t == ";"@ || t == ":"@ || t == "?"@ || t == "="@ || t == "+="@ || t == "-="@ || t == "*="@ || t == "/="@ || t == "%="@ || t == "&="@ || t == "|="@ || t == "^="@ || t == "=="@ || t == "!="@ || t == "<="@ || t == ">="@ || t == "&&"@ || t == "||"@ || t == "+"@ || t == "-"@ || t == "*"@ || t == "/"@ || t == "%"@ || t == "&"@ || t == "|"@ || t == "^"@ || t == "<"@ || t == ">"@ || t == "<<"@ || t == ">>"@ || t == ">>>"@ || t == "<<="@ || t == ">>="@ || t == ">>>="@ || t == "!"@ || t == "~"@ || t == "->"@ || t == "return"@ || t == "throw"@ || t == "yield"@ || t == "case"@
}

/// After these texts (or at the very start) a `+`, `-`, `!` or `~` is a unary
/// prefix operator.
pub fn is_unary_prefix_context(prev_text: &Option<Vec<char>>) -> (r: bool)
    ensures
        r == match prev_text {
            None => true,
            Some(t) => unary_context_text(t@),
        },
{
    match prev_text {
        None => true,
        Some(t) => is_one_of(
            t,
            &[
                "(",
                "[",
                "{",
                ",",
                ";",
                ":",
                "?",
                "=",
                "+=",
                "-=",
                "*=",
                "/=",
                "%=",
                "&=",
                "|=",
                "^=",
                "==",
                "!=",
                "<=",
                ">=",
                "&&",
                "||",
                "+",
                "-",
                "*",
                "/",
                "%",
                "&",
                "|",
                "^",
                "<",
                ">",
                "<<",
                ">>",
                ">>>",
                "<<=",
                ">>=",
                ">>>=",
                "!",
                "~",
                "->",
                "return",
                "throw",
                "yield",
                "case",
            ],
        ),
    }
}

} // verus!
