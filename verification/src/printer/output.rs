//! Writing text to the printer's output: indentation, spacing, comment
//! normalization, javadoc reflow and blank-line collapsing.
use vstd::prelude::*;
use crate::text::{
    contains_char, copy_chars, ends_with, indent_text, lines_of, push_chars, push_spaces, push_str,
    seq_ends_with, seq_starts_with, spaces, spec_lines, spec_trim, spec_trim_end, spec_trim_start, spec_words, split_whitespace_chars, starts_with,
    sub_chars, trim_chars, trim_end_chars, trim_start_chars,
};

verus! {

/// Widest javadoc line.
pub const JAVADOC_MAX_WIDTH: usize = 100;

#[derive(Debug, Clone)]
pub enum JavadocBlock {
    Paragraph { text: Vec<char>, needs_paragraph_tag: bool },
    RawLines(Vec<Vec<char>>),
}

/// A javadoc block as values: a paragraph to reflow, or lines kept as
/// written.
pub enum BlockView {
    Paragraph { text: Seq<char>, tag: bool },
    Raw(Seq<Seq<char>>),
}

/// The texts of a list of lines.
pub open spec fn texts_view(lines: Seq<Vec<char>>) -> Seq<Seq<char>> {
    lines.map_values(|l: Vec<char>| l@)
}

impl JavadocBlock {
    pub open spec fn view(&self) -> BlockView {
        match self {
            JavadocBlock::Paragraph { text, needs_paragraph_tag } => BlockView::Paragraph {
                text: text@,
                tag: *needs_paragraph_tag,
            },
            JavadocBlock::RawLines(lines) => BlockView::Raw(texts_view(lines@)),
        }
    }
}

/// The blocks as values.
pub open spec fn blocks_view(blocks: Seq<JavadocBlock>) -> Seq<BlockView> {
    blocks.map_values(|b: JavadocBlock| b@)
}

/// The blocks after the paragraph being gathered is closed.
pub open spec fn flush_paragraph(blocks: Seq<BlockView>, paragraph: Seq<char>, tag: bool) -> Seq<
    BlockView,
> {
    if paragraph.len() == 0 {
        blocks
    } else {
        blocks.push(BlockView::Paragraph { text: paragraph, tag })
    }
}

/// The blocks after the run of kept lines being gathered is closed.
pub open spec fn flush_raw(blocks: Seq<BlockView>, raw: Seq<Seq<char>>) -> Seq<BlockView> {
    if raw.len() == 0 {
        blocks
    } else {
        blocks.push(BlockView::Raw(raw))
    }
}

/// A line comment gets one space after `//` when its text starts right
/// after the slashes.
pub open spec fn spec_normalize_line_comment(t: Seq<char>) -> Seq<char> {
    if seq_starts_with(t, "//"@) && t.len() > 2 && t[2] != ' ' {
        "// "@ + t.subrange(2, t.len() as int)
    } else {
        t
    }
}

pub fn normalize_line_comment_text(text: &[char]) -> (r: Vec<char>)
    ensures
        r@ == spec_normalize_line_comment(text@),
{
    proof {
        reveal_strlit("//");
        reveal_strlit("// ");
    }
    if starts_with(text, "//") && text.len() > 2 && text[2] != ' ' {
        let mut out = crate::text::vec_of("// ");
        let rest = sub_chars(text, 2, text.len());
        push_chars(&mut out, &rest);
        return out;
    }
    copy_chars(text)
}

/// A one-line block comment whose trimmed body holds `=` is written
/// `/* body */` (parameter-name comments such as `/* a= */`); multi-line
/// javadoc is reflowed; anything else is kept.
pub open spec fn spec_normalize_plain_block_comment(t: Seq<char>) -> Seq<char> {
    if t.contains('\n') || !seq_starts_with(t, "/*"@) || !seq_ends_with(t, "*/"@) || t.len() < 4 {
        t
    } else {
        let trimmed = spec_trim(t.subrange(2, t.len() - 2));
        if trimmed.len() == 0 || !trimmed.contains('=') {
            t
        } else {
            "/* "@ + trimmed + " */"@
        }
    }
}

/// A block comment printed at an indentation level: multi-line javadoc is
/// reflowed, other comments are normalized as plain block comments.
pub open spec fn spec_normalize_block_comment(t: Seq<char>, indent: nat) -> Seq<char> {
    if seq_starts_with(t, "/**"@) && t.contains('\n') {
        spec_format_javadoc(t, indent)
    } else {
        spec_normalize_plain_block_comment(t)
    }
}

/// Normalizes a block comment printed at the given indentation level.
pub fn normalize_block_comment_text(text: &[char], indent: usize) -> (r: Vec<char>)
    requires
        indent <= usize::MAX / 4,
    ensures
        r@ == spec_normalize_block_comment(text@, indent as nat),
{
    if starts_with(text, "/**") && contains_char(text, '\n') {
        return format_javadoc_comment(text, indent);
    }
    if contains_char(text, '\n') || !starts_with(text, "/*") || !ends_with(text, "*/") || text.len()
        < 4 {
        return copy_chars(text);
    }
    let inner = sub_chars(text, 2, text.len() - 2);
    let trimmed = trim_chars(&inner);
    if trimmed.len() == 0 {
        return copy_chars(text);
    }
    if contains_char(&trimmed, '=') {
        let mut out = crate::text::vec_of("/* ");
        push_chars(&mut out, &trimmed);
        push_str(&mut out, " */");
        return out;
    }
    copy_chars(text)
}

/// Without the blank lines that open the list.
pub open spec fn drop_blank_front(lines: Seq<Seq<char>>) -> Seq<Seq<char>>
    decreases lines.len(),
{
    if lines.len() > 0 && spec_trim(lines[0]).len() == 0 {
        drop_blank_front(lines.drop_first())
    } else {
        lines
    }
}

/// Without the blank lines that close the list.
pub open spec fn drop_blank_back(lines: Seq<Seq<char>>) -> Seq<Seq<char>>
    decreases lines.len(),
{
    if lines.len() > 0 && spec_trim(lines.last()).len() == 0 {
        drop_blank_back(lines.drop_last())
    } else {
        lines
    }
}

/// The body lines of a javadoc comment: the lines between `/**` and `*/`
/// without their `*` prefixes, blank lines at either end dropped.
pub open spec fn javadoc_body_lines(text: Seq<char>) -> Seq<Seq<char>> {
    let inner = text.subrange(3, text.len() - 2);
    drop_blank_back(
        drop_blank_front(
            spec_lines(inner).map_values(|l: Seq<char>| spec_strip_javadoc_prefix(l)),
        ),
    )
}

/// The width javadoc text is filled to at an indentation level: what is
/// left of the widest line after the indentation and ` * `, at least 20.
pub open spec fn javadoc_width(indent: nat) -> int {
    let used = 2 * indent + 3;
    let w = if JAVADOC_MAX_WIDTH > used {
        JAVADOC_MAX_WIDTH - used
    } else {
        0
    };
    if w < 20 {
        20
    } else {
        w
    }
}

/// A kept javadoc line: ` *`, then a space and the line unless it is empty.
pub open spec fn raw_line_text(indent: Seq<char>, line: Seq<char>) -> Seq<char> {
    indent + " *"@ + (if line.len() > 0 {
        " "@ + line
    } else {
        Seq::empty()
    }) + "\n"@
}

/// Kept javadoc lines, one after the other.
pub open spec fn raw_lines_text(indent: Seq<char>, lines: Seq<Seq<char>>) -> Seq<char>
    decreases lines.len(),
{
    if lines.len() == 0 {
        Seq::empty()
    } else {
        raw_lines_text(indent, lines.drop_last()) + raw_line_text(indent, lines.last())
    }
}

/// The text of one javadoc block.
pub open spec fn block_text(indent: Seq<char>, block: BlockView, width: int) -> Seq<char> {
    match block {
        BlockView::Paragraph { text, tag } => wrapped_paragraph(indent, text, tag, width),
        BlockView::Raw(lines) => raw_lines_text(indent, lines),
    }
}

/// The text of javadoc blocks: a newline before the first, a ` *` line
/// between two.
pub open spec fn blocks_text(indent: Seq<char>, blocks: Seq<BlockView>, width: int) -> Seq<char>
    decreases blocks.len(),
{
    if blocks.len() == 0 {
        Seq::empty()
    } else {
        let sep = if blocks.len() == 1 {
            "\n"@
        } else {
            indent + " *\n"@
        };
        blocks_text(indent, blocks.drop_last(), width) + sep + block_text(
            indent,
            blocks.last(),
            width,
        )
    }
}

/// A javadoc comment reflowed at an indentation level; a text that is no
/// `/** ... */` comment, or whose body has no blocks, is kept.
pub open spec fn spec_format_javadoc(text: Seq<char>, indent: nat) -> Seq<char> {
    if !(seq_starts_with(text, "/**"@) && text.len() >= 5 && seq_ends_with(text, "*/"@)) {
        text
    } else {
        let body = javadoc_body_lines(text);
        let blocks = javadoc_blocks(body);
        if body.len() == 0 || blocks.len() == 0 {
            text
        } else {
            "/**"@ + blocks_text(spaces(2 * indent), blocks, javadoc_width(indent)) + spaces(
                2 * indent,
            ) + " */"@
        }
    }
}

/// Reflows a multi-line javadoc comment: paragraphs are rewrapped to the
/// line width and separated by ` *` lines with `<p>` tags; lists, tables,
/// `<pre>` blocks and block tags keep their lines.
///
/// The bound on `indent` keeps the indentation, written as spaces before
/// each line, and the line width computed from it inside `usize`.
#[verifier::rlimit(60)]
pub fn format_javadoc_comment(text: &[char], indent: usize) -> (r: Vec<char>)
    requires
        indent <= usize::MAX / 4,
    ensures
        r@ == spec_format_javadoc(text@, indent as nat),
{
    proof {
        reveal_strlit("/**");
        reveal_strlit("*/");
    }
    if !starts_with(text, "/**") || text.len() < 5 || !ends_with(text, "*/") {
        return copy_chars(text);
    }
    let inner = sub_chars(text, 3, text.len() - 2);
    let raw_lines = lines_of(&inner);
    let ghost all = spec_lines(inner@).map_values(|l: Seq<char>| spec_strip_javadoc_prefix(l));
    let mut lines: Vec<Vec<char>> = Vec::new();
    let mut k: usize = 0;
    while k < raw_lines.len()
        invariant
            k <= raw_lines@.len(),
            raw_lines@.len() == all.len(),
            all == spec_lines(inner@).map_values(|l: Seq<char>| spec_strip_javadoc_prefix(l)),
            forall|j: int| 0 <= j < raw_lines@.len() ==> (#[trigger] raw_lines@[j])@ == spec_lines(
                inner@,
            )[j],
            lines@.len() == k,
            forall|j: int| 0 <= j < k ==> (#[trigger] lines@[j])@ == all[j],
        decreases raw_lines@.len() - k,
    {
        lines.push(strip_javadoc_line_prefix(&raw_lines[k]));
        k = k + 1;
    }
    assert(texts_view(lines@) =~= all);
    let mut first: usize = 0;
    assert(all.subrange(0, all.len() as int) =~= all);
    while first < lines.len() && trim_chars(&lines[first]).len() == 0
        invariant
            first <= lines@.len(),
            texts_view(lines@) == all,
            drop_blank_front(all) == drop_blank_front(all.subrange(first as int, all.len() as int)),
        decreases lines@.len() - first,
    {
        assert(all.subrange(first as int, all.len() as int).drop_first() =~= all.subrange(
            first + 1,
            all.len() as int,
        ));
        first = first + 1;
    }
    let ghost front = all.subrange(first as int, all.len() as int);
    assert(drop_blank_front(all) == front);
    let mut last = lines.len();
    while last > first && trim_chars(&lines[last - 1]).len() == 0
        invariant
            first <= last <= lines@.len(),
            texts_view(lines@) == all,
            front == all.subrange(first as int, all.len() as int),
            drop_blank_back(front) == drop_blank_back(all.subrange(first as int, last as int)),
        decreases last,
    {
        assert(all.subrange(first as int, last as int).drop_last() =~= all.subrange(
            first as int,
            last - 1,
        ));
        last = last - 1;
    }
    let ghost body = all.subrange(first as int, last as int);
    assert(javadoc_body_lines(text@) == body);
    if first >= last {
        return copy_chars(text);
    }
    let mut kept: Vec<Vec<char>> = Vec::new();
    let mut j = first;
    while j < last
        invariant
            first <= j <= last <= lines@.len(),
            texts_view(lines@) == all,
            kept@.len() == j - first,
            forall|m: int| 0 <= m < j - first ==> (#[trigger] kept@[m])@ == all[first + m],
        decreases last - j,
    {
        kept.push(copy_chars(&lines[j]));
        j = j + 1;
    }
    assert(texts_view(kept@) =~= body);
    let blocks = parse_javadoc_blocks(&kept);
    let ghost bs = blocks_view(blocks@);
    if blocks.len() == 0 {
        return copy_chars(text);
    }
    let mut indent_str: Vec<char> = Vec::new();
    push_spaces(&mut indent_str, indent * 2);
    let used = indent * 2 + 3;
    let mut content_width: usize = if JAVADOC_MAX_WIDTH > used {
        JAVADOC_MAX_WIDTH - used
    } else {
        0
    };
    if content_width < 20 {
        content_width = 20;
    }
    assert(content_width == javadoc_width(indent as nat));
    let ghost ind = indent_str@;
    let mut out = crate::text::vec_of("/**");
    let mut index: usize = 0;
    assert(bs.subrange(0, 0) =~= Seq::<BlockView>::empty());
    while index < blocks.len()
        invariant
            index <= blocks@.len(),
            bs == blocks_view(blocks@),
            ind == indent_str@,
            out@ == "/**"@ + blocks_text(ind, bs.subrange(0, index as int), content_width as int),
        decreases blocks@.len() - index,
    {
        proof {
            reveal_strlit("\n");
            reveal_strlit(" *");
            reveal_strlit(" *\n");
            reveal_strlit(" ");
        }
        let ghost out0 = out@;
        if index == 0 {
            out.push('\n');
        } else {
            push_chars(&mut out, &indent_str);
            push_str(&mut out, " *");
            out.push('\n');
        }
        let ghost sep = if index == 0 {
            "\n"@
        } else {
            ind + " *\n"@
        };
        assert(out@ =~= out0 + sep);
        let ghost out1 = out@;
        assert(bs[index as int] == blocks@[index as int]@);
        match &blocks[index] {
            JavadocBlock::Paragraph { text, needs_paragraph_tag } => {
                append_wrapped_javadoc_paragraph(
                    &mut out,
                    &indent_str,
                    text,
                    *needs_paragraph_tag,
                    content_width,
                );
            },
            JavadocBlock::RawLines(raw) => {
                let ghost rv = texts_view(raw@);
                let mut m: usize = 0;
                assert(rv.subrange(0, 0) =~= Seq::<Seq<char>>::empty());
                while m < raw.len()
                    invariant
                        m <= raw@.len(),
                        rv == texts_view(raw@),
                        ind == indent_str@,
                        out@ == out1 + raw_lines_text(ind, rv.subrange(0, m as int)),
                    decreases raw@.len() - m,
                {
                    proof {
                        reveal_strlit("\n");
                        reveal_strlit(" *");
                        reveal_strlit(" ");
                    }
                    let ghost o0 = out@;
                    push_chars(&mut out, &indent_str);
                    push_str(&mut out, " *");
                    if raw[m].len() > 0 {
                        out.push(' ');
                        push_chars(&mut out, &raw[m]);
                    }
                    out.push('\n');
                    assert(rv[m as int] == raw@[m as int]@);
                    assert(out@ =~= o0 + raw_line_text(ind, rv[m as int]));
                    assert(rv.subrange(0, m + 1).drop_last() =~= rv.subrange(0, m as int));
                    m = m + 1;
                }
                assert(rv.subrange(0, raw@.len() as int) =~= rv);
            },
        }
        assert(out@ == out0 + sep + block_text(ind, bs[index as int], content_width as int));
        assert(bs.subrange(0, index + 1).drop_last() =~= bs.subrange(0, index as int));
        index = index + 1;
    }
    assert(bs.subrange(0, blocks@.len() as int) =~= bs);
    push_chars(&mut out, &indent_str);
    push_str(&mut out, " */");
    out
}

/// A javadoc line without its leading `*` and one space after it, and
/// without surrounding whitespace.
pub open spec fn spec_strip_javadoc_prefix(line: Seq<char>) -> Seq<char> {
    let t = spec_trim_start(line);
    if t.len() > 0 && t[0] == '*' {
        let rest = t.subrange(1, t.len() as int);
        if rest.len() > 0 && rest[0] == ' ' {
            spec_trim_end(rest.subrange(1, rest.len() as int))
        } else {
            spec_trim_end(rest)
        }
    } else {
        spec_trim_end(t)
    }
}

/// A javadoc line without its leading `*` and the space after it, and
/// without trailing whitespace.
pub fn strip_javadoc_line_prefix(line: &[char]) -> (r: Vec<char>)
    ensures
        r@ == spec_strip_javadoc_prefix(line@),
{
    let trimmed = trim_start_chars(line);
    if trimmed.len() > 0 && trimmed[0] == '*' {
        let mut rest = sub_chars(&trimmed, 1, trimmed.len());
        if rest.len() > 0 && rest[0] == ' ' {
            rest = sub_chars(&rest, 1, rest.len());
        }
        return trim_end_chars(&rest);
    }
    trim_end_chars(&trimmed)
}

/// What the split of javadoc lines into blocks holds after some lines.
pub struct ParseState {
    pub blocks: Seq<BlockView>,
    pub paragraph: Seq<char>,
    pub tag: bool,
    pub raw: Seq<Seq<char>>,
    pub preformatted: bool,
    pub pending_separator: bool,
}

/// The state before the first line.
pub open spec fn parse_start() -> ParseState {
    ParseState {
        blocks: Seq::empty(),
        paragraph: Seq::empty(),
        tag: false,
        raw: Seq::empty(),
        preformatted: false,
        pending_separator: false,
    }
}

/// The state after one more line: inside `<pre>` every line is kept; a
/// blank line or a lone `<p>` closes what is open and asks for a separator;
/// list, table, `<pre>` and block-tag lines are kept; other lines join the
/// paragraph, or start a new one after an explicit `<p>` or a separator.
pub open spec fn parse_step(st: ParseState, line: Seq<char>) -> ParseState {
    let trimmed = spec_trim(line);
    if st.preformatted {
        ParseState {
            raw: st.raw.push(spec_trim_end(line)),
            preformatted: !seq_starts_with(trimmed, "</pre>"@),
            ..st
        }
    } else if trimmed.len() == 0 || trimmed == "<p>"@ {
        ParseState {
            blocks: flush_raw(flush_paragraph(st.blocks, st.paragraph, st.tag), st.raw),
            paragraph: Seq::empty(),
            tag: false,
            raw: Seq::empty(),
            pending_separator: true,
            ..st
        }
    } else if spec_is_raw_javadoc_line(trimmed) {
        ParseState {
            blocks: flush_paragraph(st.blocks, st.paragraph, st.tag),
            paragraph: Seq::empty(),
            tag: false,
            raw: st.raw.push(spec_normalize_raw_javadoc_line(line)),
            preformatted: seq_starts_with(trimmed, "<pre>"@),
            pending_separator: false,
        }
    } else {
        let blocks1 = flush_raw(st.blocks, st.raw);
        let explicit = seq_starts_with(trimmed, "<p>"@);
        let text = if explicit {
            spec_trim_start(trimmed.subrange(3, trimmed.len() as int))
        } else {
            trimmed
        };
        if st.paragraph.len() == 0 {
            ParseState {
                blocks: blocks1,
                paragraph: text,
                tag: explicit || st.pending_separator || blocks1.len() > 0,
                raw: Seq::empty(),
                preformatted: false,
                pending_separator: false,
            }
        } else if explicit || st.pending_separator {
            ParseState {
                blocks: flush_paragraph(blocks1, st.paragraph, st.tag),
                paragraph: text,
                tag: true,
                raw: Seq::empty(),
                preformatted: false,
                pending_separator: false,
            }
        } else {
            ParseState {
                blocks: blocks1,
                paragraph: st.paragraph + " "@ + text,
                tag: st.tag,
                raw: Seq::empty(),
                preformatted: false,
                pending_separator: false,
            }
        }
    }
}

/// The state after the first `n` lines.
pub open spec fn parse_prefix(lines: Seq<Seq<char>>, n: nat) -> ParseState
    decreases n,
{
    if n == 0 || n > lines.len() {
        parse_start()
    } else {
        parse_step(parse_prefix(lines, (n - 1) as nat), lines[n - 1])
    }
}

/// The blocks of javadoc lines: the state after all of them, with what is
/// still open closed.
pub open spec fn javadoc_blocks(lines: Seq<Seq<char>>) -> Seq<BlockView> {
    let st = parse_prefix(lines, lines.len());
    flush_raw(flush_paragraph(st.blocks, st.paragraph, st.tag), st.raw)
}

/// The exec state matches `st`.
pub open spec fn parse_state_is(
    blocks: Seq<JavadocBlock>,
    paragraph: Seq<char>,
    tag: bool,
    raw: Seq<Vec<char>>,
    preformatted: bool,
    pending_separator: bool,
    st: ParseState,
) -> bool {
    &&& blocks_view(blocks) == st.blocks
    &&& paragraph == st.paragraph
    &&& tag == st.tag
    &&& texts_view(raw) == st.raw
    &&& preformatted == st.preformatted
    &&& pending_separator == st.pending_separator
}

/// Splits javadoc lines into paragraphs and runs of lines kept as written.
#[verifier::rlimit(40)]
pub fn parse_javadoc_blocks(lines: &Vec<Vec<char>>) -> (r: Vec<JavadocBlock>)
    ensures
        blocks_view(r@) == javadoc_blocks(texts_view(lines@)),
{
    let ghost ls = texts_view(lines@);
    let mut blocks: Vec<JavadocBlock> = Vec::new();
    let mut paragraph: Vec<char> = Vec::new();
    let mut paragraph_needs_tag = false;
    let mut raw_lines: Vec<Vec<char>> = Vec::new();
    let mut in_preformatted = false;
    let mut pending_separator = false;
    let mut k: usize = 0;
    assert(blocks_view(blocks@) =~= Seq::<BlockView>::empty());
    assert(texts_view(raw_lines@) =~= Seq::<Seq<char>>::empty());
    while k < lines.len()
        invariant
            k <= lines@.len(),
            ls == texts_view(lines@),
            parse_state_is(
                blocks@,
                paragraph@,
                paragraph_needs_tag,
                raw_lines@,
                in_preformatted,
                pending_separator,
                parse_prefix(ls, k as nat),
            ),
        decreases lines@.len() - k,
    {
        proof {
            reveal_strlit("<p>");
            reveal_strlit(" ");
        }
        let line = &lines[k];
        let ghost st = parse_prefix(ls, k as nat);
        let ghost next = parse_step(st, line@);
        assert(ls[k as int] == line@);
        let trimmed = trim_chars(line);
        k = k + 1;
        assert(parse_prefix(ls, k as nat) == next);
        if in_preformatted {
            let ghost raw0 = raw_lines@;
            raw_lines.push(trim_end_chars(line));
            assert(texts_view(raw_lines@) =~= texts_view(raw0).push(spec_trim_end(line@)));
            if starts_with(&trimmed, "</pre>") {
                in_preformatted = false;
            }
            continue ;
        }
        if trimmed.len() == 0 || crate::text::text_is(&trimmed, "<p>") {
            flush_javadoc_paragraph(&mut blocks, &mut paragraph, paragraph_needs_tag);
            paragraph_needs_tag = false;
            flush_javadoc_raw_lines(&mut blocks, &mut raw_lines);
            pending_separator = true;
            assert(texts_view(raw_lines@) =~= Seq::<Seq<char>>::empty());
            assert(paragraph@ =~= Seq::<char>::empty());
            continue ;
        }
        if is_raw_javadoc_line(&trimmed) {
            flush_javadoc_paragraph(&mut blocks, &mut paragraph, paragraph_needs_tag);
            paragraph_needs_tag = false;
            assert(paragraph@ =~= Seq::<char>::empty());
            let ghost raw0 = raw_lines@;
            raw_lines.push(normalize_raw_javadoc_line(line));
            assert(texts_view(raw_lines@) =~= texts_view(raw0).push(
                spec_normalize_raw_javadoc_line(line@),
            ));
            if starts_with(&trimmed, "<pre>") {
                in_preformatted = true;
            }
            pending_separator = false;
            continue ;
        }
        flush_javadoc_raw_lines(&mut blocks, &mut raw_lines);
        assert(texts_view(raw_lines@) =~= Seq::<Seq<char>>::empty());
        let explicit_paragraph_tag = starts_with(&trimmed, "<p>");
        let paragraph_line = if explicit_paragraph_tag {
            let rest = sub_chars(&trimmed, 3, trimmed.len());
            trim_start_chars(&rest)
        } else {
            copy_chars(&trimmed)
        };
        assert(paragraph_line@ == (if explicit_paragraph_tag {
            spec_trim_start(trimmed@.subrange(3, trimmed@.len() as int))
        } else {
            trimmed@
        }));
        if paragraph.len() == 0 {
            paragraph_needs_tag = explicit_paragraph_tag || pending_separator || blocks.len() > 0;
            push_chars(&mut paragraph, &paragraph_line);
            assert(paragraph@ =~= paragraph_line@);
        } else if explicit_paragraph_tag || pending_separator {
            flush_javadoc_paragraph(&mut blocks, &mut paragraph, paragraph_needs_tag);
            paragraph_needs_tag = true;
            push_chars(&mut paragraph, &paragraph_line);
            assert(paragraph@ =~= paragraph_line@);
        } else {
            let ghost p0 = paragraph@;
            paragraph.push(' ');
            push_chars(&mut paragraph, &paragraph_line);
            assert(paragraph@ =~= p0 + " "@ + paragraph_line@);
        }
        pending_separator = false;
        assert(blocks_view(blocks@).len() == blocks@.len());
    }
    flush_javadoc_paragraph(&mut blocks, &mut paragraph, paragraph_needs_tag);
    flush_javadoc_raw_lines(&mut blocks, &mut raw_lines);
    blocks
}

/// Closes the paragraph being gathered, if any.
pub fn flush_javadoc_paragraph(
    blocks: &mut Vec<JavadocBlock>,
    paragraph: &mut Vec<char>,
    needs_paragraph_tag: bool,
)
    ensures
        final(paragraph)@.len() == 0,
        blocks_view(final(blocks)@) == flush_paragraph(
            blocks_view(old(blocks)@),
            old(paragraph)@,
            needs_paragraph_tag,
        ),
{
    if paragraph.len() == 0 {
        return ;
    }
    let ghost b0 = blocks@;
    let text = copy_chars(paragraph);
    paragraph.clear();
    blocks.push(JavadocBlock::Paragraph { text, needs_paragraph_tag });
    assert(blocks_view(blocks@) =~= blocks_view(b0).push(
        BlockView::Paragraph { text: text@, tag: needs_paragraph_tag },
    ));
}

/// Closes the run of kept lines being gathered, if any.
pub fn flush_javadoc_raw_lines(blocks: &mut Vec<JavadocBlock>, raw_lines: &mut Vec<Vec<char>>)
    ensures
        final(raw_lines)@.len() == 0,
        blocks_view(final(blocks)@) == flush_raw(
            blocks_view(old(blocks)@),
            texts_view(old(raw_lines)@),
        ),
{
    if raw_lines.len() == 0 {
        return ;
    }
    let ghost b0 = blocks@;
    let ghost r0 = raw_lines@;
    let mut taken: Vec<Vec<char>> = Vec::new();
    taken.append(raw_lines);
    assert(taken@ =~= r0);
    blocks.push(JavadocBlock::RawLines(taken));
    assert(blocks_view(blocks@) =~= blocks_view(b0).push(BlockView::Raw(texts_view(r0))));
}

/// Lines that javadoc reflow keeps as written: list and table tags, `<pre>`
/// and block tags.
pub open spec fn spec_is_raw_javadoc_line(trimmed: Seq<char>) -> bool {
    seq_starts_with(trimmed, "<ul>"@) || seq_starts_with(trimmed, "</ul>"@) || seq_starts_with(
        trimmed,
        "<ol>"@,
    ) || seq_starts_with(trimmed, "</ol>"@) || seq_starts_with(trimmed, "<li>"@)
        || seq_starts_with(trimmed, "<pre>"@) || seq_starts_with(trimmed, "</pre>"@)
        || seq_starts_with(trimmed, "<table>"@) || seq_starts_with(trimmed, "</table>"@)
        || seq_starts_with(trimmed, "@"@)
}

/// Lines that javadoc reflow keeps as written: list and table tags, `<pre>`
/// and block tags.
pub fn is_raw_javadoc_line(trimmed: &[char]) -> (r: bool)
    ensures
        r == spec_is_raw_javadoc_line(trimmed@),
{
    starts_with(trimmed, "<ul>") || starts_with(trimmed, "</ul>") || starts_with(trimmed, "<ol>")
        || starts_with(trimmed, "</ol>") || starts_with(trimmed, "<li>") || starts_with(
        trimmed,
        "<pre>",
    ) || starts_with(trimmed, "</pre>") || starts_with(trimmed, "<table>") || starts_with(
        trimmed,
        "</table>",
    ) || starts_with(trimmed, "@")
}

/// A kept line without trailing whitespace; list items are indented by two
/// and lose the whitespace after `<li>`.
pub open spec fn spec_normalize_raw_javadoc_line(line: Seq<char>) -> Seq<char> {
    let t = spec_trim_end(line);
    let start = spec_trim_start(t);
    if seq_starts_with(start, "<li>"@) {
        "  <li>"@ + spec_trim_start(start.subrange(4, start.len() as int))
    } else {
        t
    }
}

/// A kept line without trailing whitespace; list items are indented by two.
pub fn normalize_raw_javadoc_line(line: &[char]) -> (r: Vec<char>)
    ensures
        r@ == spec_normalize_raw_javadoc_line(line@),
{
    let trimmed = trim_end_chars(line);
    let start = trim_start_chars(&trimmed);
    if starts_with(&start, "<li>") {
        proof {
            reveal_strlit("<li>");
        }
        let rest = sub_chars(&start, 4, start.len());
        let mut out = crate::text::vec_of("  <li>");
        let rest_trimmed = trim_start_chars(&rest);
        push_chars(&mut out, &rest_trimmed);
        return out;
    }
    trimmed
}

/// A javadoc body line: the indentation, ` * `, the text and a newline.
pub open spec fn javadoc_line(indent: Seq<char>, line: Seq<char>) -> Seq<char> {
    indent + " * "@ + line + "\n"@
}

/// Javadoc body lines, one after the other.
pub open spec fn javadoc_lines(indent: Seq<char>, lines: Seq<Seq<char>>) -> Seq<char>
    decreases lines.len(),
{
    if lines.len() == 0 {
        Seq::empty()
    } else {
        javadoc_lines(indent, lines.drop_last()) + javadoc_line(indent, lines.last())
    }
}

/// The lines that words `k..` fill, the current line holding `current`:
/// a word joins the line after a space while the line stays within
/// `width`, else it starts the next line.
pub open spec fn wrap_words(words: Seq<Seq<char>>, k: nat, current: Seq<char>, width: int) -> Seq<
    Seq<char>,
>
    decreases words.len() - k,
{
    if k >= words.len() {
        seq![current]
    } else if current.len() + 1 + words[k as int].len() > width {
        seq![current] + wrap_words(words, k + 1, words[k as int], width)
    } else {
        wrap_words(words, k + 1, current + " "@ + words[k as int], width)
    }
}

/// A paragraph written as javadoc lines filled up to `width`, the first
/// line opening with `<p>` when a tag is asked for; nothing for a paragraph
/// without words.
pub open spec fn wrapped_paragraph(indent: Seq<char>, text: Seq<char>, tag: bool, width: int) -> Seq<
    char,
> {
    let words = spec_words(text);
    if words.len() == 0 {
        Seq::empty()
    } else {
        let first = if tag {
            "<p>"@ + words[0]
        } else {
            words[0]
        };
        javadoc_lines(indent, wrap_words(words, 1, first, width))
    }
}

/// Writes a paragraph as ` * ` lines filled up to `content_width`.
pub fn append_wrapped_javadoc_paragraph(
    out: &mut Vec<char>,
    indent_str: &[char],
    text: &[char],
    needs_paragraph_tag: bool,
    content_width: usize,
)
    ensures
        final(out)@ == old(out)@ + wrapped_paragraph(
            indent_str@,
            text@,
            needs_paragraph_tag,
            content_width as int,
        ),
{
    let ghost out0 = out@;
    let ghost ws = spec_words(text@);
    let words = split_whitespace_chars(text);
    if words.len() == 0 {
        assert(out@ =~= out0 + wrapped_paragraph(
            indent_str@,
            text@,
            needs_paragraph_tag,
            content_width as int,
        ));
        return ;
    }
    let mut current: Vec<char> = Vec::new();
    if needs_paragraph_tag {
        push_str(&mut current, "<p>");
    }
    push_chars(&mut current, &words[0]);
    let ghost first = current@;
    proof {
        reveal_strlit("\n");
        reveal_strlit(" ");
        if needs_paragraph_tag {
            assert(first =~= "<p>"@ + ws[0]);
        } else {
            assert(first =~= ws[0]);
        }
    }
    let ghost mut emitted: Seq<Seq<char>> = Seq::empty();
    assert(out@ =~= out0 + javadoc_lines(indent_str@, emitted));
    let mut k: usize = 1;
    while k < words.len()
        invariant
            1 <= k <= words@.len(),
            words@.len() == ws.len(),
            forall|j: int| 0 <= j < words@.len() ==> (#[trigger] words@[j])@ == ws[j],
            wrap_words(ws, 1, first, content_width as int) == emitted + wrap_words(
                ws,
                k as nat,
                current@,
                content_width as int,
            ),
            out@ == out0 + javadoc_lines(indent_str@, emitted),
        decreases words@.len() - k,
    {
        proof {
            reveal_strlit("\n");
            reveal_strlit(" ");
        }
        let word = &words[k];
        let too_long = current.len() >= content_width || word.len() > content_width
            - current.len() - 1;
        if too_long {
            let ghost before = emitted;
            push_chars(out, indent_str);
            push_str(out, " * ");
            push_chars(out, &current);
            out.push('\n');
            proof {
                emitted = emitted.push(current@);
                assert(emitted.drop_last() =~= before);
                assert(out@ =~= out0 + javadoc_lines(indent_str@, emitted));
                assert(before + (seq![current@] + wrap_words(
                    ws,
                    (k + 1) as nat,
                    word@,
                    content_width as int,
                )) =~= emitted + wrap_words(ws, (k + 1) as nat, word@, content_width as int));
            }
            current.clear();
            push_chars(&mut current, word);
            assert(current@ =~= word@);
        } else {
            let ghost cur0 = current@;
            current.push(' ');
            push_chars(&mut current, word);
            assert(current@ =~= cur0 + " "@ + ws[k as int]);
        }
        k = k + 1;
    }
    let ghost before = emitted;
    push_chars(out, indent_str);
    push_str(out, " * ");
    push_chars(out, &current);
    out.push('\n');
    proof {
        emitted = emitted.push(current@);
        assert(emitted.drop_last() =~= before);
        assert(before + seq![current@] =~= emitted);
    }
}

/// Writes `text`, first indenting by `indent` levels of two spaces when at
/// the start of a line.
pub fn write_with_indent(out: &mut Vec<char>, at_line_start: &mut bool, indent: usize, text: &[char])
    requires
        indent <= usize::MAX / 4,
    ensures
        final(out)@ == old(out)@ + (if *old(at_line_start) {
            indent_text(indent as nat)
        } else {
            Seq::empty()
        }) + text@,
        *final(at_line_start) == false,
{
    if *at_line_start {
        push_spaces(out, indent * 2);
        *at_line_start = false;
    }
    push_chars(out, text);
}

/// Adds a space unless at the start of a line or after a space or newline.
pub fn ensure_space(out: &mut Vec<char>, at_line_start: bool)
    ensures
        final(out)@ == if !at_line_start && old(out)@.len() > 0 && old(out)@.last() != ' '
            && old(out)@.last() != '\n' {
            old(out)@.push(' ')
        } else {
            old(out)@
        },
{
    if at_line_start {
        return ;
    }
    if out.len() > 0 {
        let ch = out[out.len() - 1];
        if ch != ' ' && ch != '\n' {
            out.push(' ');
        }
    }
}

/// The text with every run of three or more newlines cut to two, given that
/// `run` newlines came just before it.
pub open spec fn collapse_newlines(s: Seq<char>, run: nat) -> Seq<char>
    decreases s.len(),
{
    if s.len() == 0 {
        Seq::empty()
    } else if s[0] == '\n' {
        if run + 1 <= 2 {
            seq!['\n'] + collapse_newlines(s.drop_first(), run + 1)
        } else {
            collapse_newlines(s.drop_first(), run + 1)
        }
    } else {
        seq![s[0]] + collapse_newlines(s.drop_first(), 0)
    }
}

/// No three newlines in a row.
pub open spec fn no_triple_newline(s: Seq<char>) -> bool {
    forall|k: int| 0 <= k && k + 2 < s.len() ==> !(#[trigger] s[k] == '\n' && s[k + 1] == '\n' && s[k + 2]
        == '\n')
}

/// Collapsing leaves no three newlines in a row, and after `run` newlines it
/// starts with at most `2 - run` of them.
pub proof fn lemma_collapse_newlines(s: Seq<char>, run: nat)
    ensures
        no_triple_newline(collapse_newlines(s, run)),
        run >= 2 ==> (collapse_newlines(s, run).len() > 0 ==> collapse_newlines(s, run)[0] != '\n'),
        run == 1 ==> (collapse_newlines(s, run).len() > 1 ==> !(collapse_newlines(s, run)[0] == '\n'
            && collapse_newlines(s, run)[1] == '\n')),
    decreases s.len(),
{
    if s.len() > 0 {
        lemma_collapse_newlines(s.drop_first(), run + 1);
        lemma_collapse_newlines(s.drop_first(), 0);
        let r = collapse_newlines(s, run);
        if s[0] == '\n' {
            if run + 1 <= 2 {
                let rest = collapse_newlines(s.drop_first(), run + 1);
                assert(r == seq!['\n'] + rest);
                assert forall|k: int| 0 <= k && k + 2 < r.len() implies !(#[trigger] r[k] == '\n'
                    && r[k + 1] == '\n' && r[k + 2] == '\n') by {
                    if k > 0 {
                        assert(r[k] == rest[k - 1]);
                        assert(r[k + 1] == rest[k]);
                        assert(r[k + 2] == rest[k + 1]);
                    } else {
                        assert(r[1] == rest[0]);
                        assert(r[2] == rest[1]);
                    }
                }
            }
        } else {
            let rest = collapse_newlines(s.drop_first(), 0);
            assert(r == seq![s[0]] + rest);
            assert forall|k: int| 0 <= k && k + 2 < r.len() implies !(#[trigger] r[k] == '\n'
                && r[k + 1] == '\n' && r[k + 2] == '\n') by {
                if k > 0 {
                    assert(r[k] == rest[k - 1]);
                    assert(r[k + 1] == rest[k]);
                    assert(r[k + 2] == rest[k + 1]);
                }
            }
        }
    }
}

/// Cuts every run of three or more newlines to two.
pub fn trim_redundant_blank_lines(input: &[char]) -> (r: Vec<char>)
    ensures
        r@ == collapse_newlines(input@, 0),
        no_triple_newline(r@),
{
    let mut out: Vec<char> = Vec::new();
    let mut newline_run: usize = 0;
    let mut i: usize = 0;
    assert(input@.subrange(0, input@.len() as int) =~= input@);
    while i < input.len()
        invariant
            i <= input@.len(),
            newline_run <= i,
            collapse_newlines(input@, 0) == out@ + collapse_newlines(
                input@.subrange(i as int, input@.len() as int),
                newline_run as nat,
            ),
        decreases input@.len() - i,
    {
        let ghost rest = input@.subrange(i as int, input@.len() as int);
        assert(rest.drop_first() =~= input@.subrange(i + 1, input@.len() as int));
        let ch = input[i];
        let ghost before = out@;
        if ch == '\n' {
            newline_run = newline_run + 1;
            if newline_run <= 2 {
                out.push(ch);
                assert(before + (seq!['\n'] + collapse_newlines(rest.drop_first(), newline_run as nat))
                    =~= out@ + collapse_newlines(rest.drop_first(), newline_run as nat));
            }
        } else {
            newline_run = 0;
            out.push(ch);
            assert(before + (seq![ch] + collapse_newlines(rest.drop_first(), 0)) =~= out@
                + collapse_newlines(rest.drop_first(), 0));
        }
        i = i + 1;
    }
    assert(input@.subrange(i as int, input@.len() as int) =~= Seq::<char>::empty());
    assert(out@ =~= collapse_newlines(input@, 0));
    proof {
        lemma_collapse_newlines(input@, 0);
    }
    out
}

/// The characters of `s` that are neither spaces nor newlines: what stays
/// of a text when its layout is ignored.
pub open spec fn visible(s: Seq<char>) -> Seq<char>
    decreases s.len(),
{
    if s.len() == 0 {
        Seq::empty()
    } else if s[0] == ' ' || s[0] == '\n' {
        visible(s.drop_first())
    } else {
        seq![s[0]] + visible(s.drop_first())
    }
}

/// What is visible of two texts one after the other is what is visible of
/// each.
pub proof fn lemma_visible_concat(a: Seq<char>, b: Seq<char>)
    ensures
        visible(a + b) == visible(a) + visible(b),
    decreases a.len(),
{
    if a.len() == 0 {
        assert(a + b =~= b);
        assert(visible(a) =~= Seq::<char>::empty());
        assert(visible(a) + visible(b) =~= visible(b));
    } else {
        assert((a + b).drop_first() =~= a.drop_first() + b);
        assert((a + b)[0] == a[0]);
        lemma_visible_concat(a.drop_first(), b);
        if a[0] == ' ' || a[0] == '\n' {
        } else {
            assert(seq![a[0]] + (visible(a.drop_first()) + visible(b)) =~= (seq![a[0]] + visible(
                a.drop_first(),
            )) + visible(b));
        }
    }
}

/// Nothing of a run of spaces and newlines is visible.
pub proof fn lemma_visible_layout(s: Seq<char>)
    requires
        forall|k: int| 0 <= k < s.len() ==> (#[trigger] s[k] == ' ' || s[k] == '\n'),
    ensures
        visible(s) == Seq::<char>::empty(),
    decreases s.len(),
{
    if s.len() > 0 {
        assert(s[0] == ' ' || s[0] == '\n');
        assert forall|k: int| 0 <= k < s.drop_first().len() implies (#[trigger] s.drop_first()[k]
            == ' ' || s.drop_first()[k] == '\n') by {
            assert(s.drop_first()[k] == s[k + 1]);
        }
        lemma_visible_layout(s.drop_first());
    }
}

/// Adding a space or a newline adds nothing visible.
pub proof fn lemma_visible_push_layout(s: Seq<char>, c: char)
    requires
        c == ' ' || c == '\n',
    ensures
        visible(s.push(c)) == visible(s),
{
    lemma_visible_concat(s, seq![c]);
    assert(s.push(c) =~= s + seq![c]);
    assert(seq![c].drop_first() =~= Seq::<char>::empty());
    assert(seq![c][0] == c);
    assert(visible(Seq::<char>::empty()) =~= Seq::<char>::empty());
    assert(visible(seq![c]) =~= Seq::<char>::empty());
    assert(visible(s) + Seq::<char>::empty() =~= visible(s));
}

/// Cutting runs of newlines keeps what is visible.
pub proof fn lemma_visible_collapse(s: Seq<char>, run: nat)
    ensures
        visible(collapse_newlines(s, run)) == visible(s),
    decreases s.len(),
{
    if s.len() > 0 {
        lemma_visible_collapse(s.drop_first(), run + 1);
        lemma_visible_collapse(s.drop_first(), 0);
        if s[0] == '\n' {
            if run + 1 <= 2 {
                let rest = collapse_newlines(s.drop_first(), run + 1);
                assert((seq!['\n'] + rest)[0] == '\n');
                assert((seq!['\n'] + rest).drop_first() =~= rest);
            }
        } else {
            let rest = collapse_newlines(s.drop_first(), 0);
            assert((seq![s[0]] + rest)[0] == s[0]);
            assert((seq![s[0]] + rest).drop_first() =~= rest);
        }
    }
}

/// Normalizing a line comment only adds a space.
pub proof fn lemma_visible_line_comment(t: Seq<char>)
    ensures
        visible(spec_normalize_line_comment(t)) == visible(t),
{
    reveal_strlit("//");
    reveal_strlit("// ");
    if seq_starts_with(t, "//"@) && t.len() > 2 && t[2] != ' ' {
        let rest = t.subrange(2, t.len() as int);
        assert(t =~= "//"@ + rest);
        lemma_visible_concat("// "@, rest);
        lemma_visible_concat("//"@, rest);
        assert("// "@ =~= "//"@.push(' '));
        lemma_visible_push_layout("//"@, ' ');
    }
}

} // verus!
