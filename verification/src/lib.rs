//! A Java source formatter in the style of google-java-format.
pub mod text;
pub mod lexer;
pub mod cst;
pub mod parser;
pub mod comments;
pub mod ir;
pub mod syntax;
pub mod printer;
pub mod emit;
pub mod declarations;
pub mod doc;
pub mod layout;
pub mod source_file;
pub mod compat;
pub mod suite;
pub mod bench;

use vstd::prelude::*;
use crate::compat::{LineEnding, crlf_only, finalized_output, unify_newlines};
use crate::comments::count_kind;
use crate::emit::no_trailing_blank;
use crate::source_file::{package_import_text_of, token_path_output};
use crate::lexer::{TokenKind, spec_lex};
use crate::syntax::spec_outline;

verus! {

/// The formatted text, and whether it differs from the input.
#[derive(Debug, Clone, PartialEq, Eq)]
pub struct FormatResult {
    pub output: String,
    pub changed: bool,
}

/// The line ending the output of an input gets.
pub open spec fn line_ending_of(input: Seq<char>) -> LineEnding {
    if crlf_only(input) {
        LineEnding::Crlf
    } else {
        LineEnding::Lf
    }
}

/// What the item-by-item path makes of an input that holds nothing but a
/// package clause and imports, or `None` for any other input.
pub open spec fn package_import_output(input: Seq<char>) -> Option<Seq<char>> {
    let src = unify_newlines(input);
    let toks = spec_lex(src);
    package_import_text_of(
        src,
        toks,
        count_kind(toks, TokenKind::LineComment),
        count_kind(toks, TokenKind::BlockComment),
        spec_outline(src, toks, 0),
    )
}

/// Formats Java source text: newlines unified, the file formatted, the
/// top-level imports put in order and CRLF line endings restored where the
/// input used them throughout. `changed` tells whether the output differs
/// from the input. A file of nothing but a package clause and imports gets
/// exactly its clause and imports written out; any other file gets the token
/// printer's text (its declarations finished, with no space or tab at the end
/// of a line and a final newline) before imports and line endings are seen
/// to.
///
/// The bound on the input's length is what the printer's counters need:
/// each token may raise an indentation or a depth by at most 8 (`cap`), and
/// the printed text holds up to a full indentation per token, so with at
/// most `usize::MAX / 128` characters every counter and every length stays
/// inside `usize`.
pub fn format_str(input: &str) -> (r: FormatResult)
    requires
        input@.len() <= usize::MAX / 128,
    ensures
        r.changed == (r.output@ != input@),
        package_import_output(input@) matches Some(t) ==> r.output@ == finalized_output(
            t,
            line_ending_of(input@),
        ),
        package_import_output(input@) is None ==> exists|t: Seq<char>|
            no_trailing_blank(t) && (t.len() > 0 ==> t.last() == '\n') && token_path_output(
                unify_newlines(input@),
                spec_lex(unify_newlines(input@)),
                t,
            ) && r.output@ == finalized_output(t, line_ending_of(input@)),
{
    let normalized = compat::normalize_input(input);
    let parsed = syntax::parse(normalized.source.as_str());
    proof {
        compat::lemma_unify_shorter(input@);
        lexer::lemma_tile_count(parsed.cst.tokens@, 0, parsed.cst.source@.len() as int);
    }
    let emitted = source_file::format(&parsed);
    let ghost e = emitted@;
    let output = compat::finalize_output(emitted, normalized.line_ending);
    let changed = !text::chars_eq(&text::chars_of(output.as_str()), &text::chars_of(input));
    FormatResult { output, changed }
}

} // verus!
