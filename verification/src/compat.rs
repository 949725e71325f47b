//! What the formatter does around the formatting proper: newlines are
//! unified on the way in, and on the way out the top-level imports are put
//! in order and CRLF line endings are restored.
use vstd::prelude::*;
use crate::text::{chars_of, lines_of, seq_contains, seq_starts_with, spec_lines, spec_trim_start, starts_with, string_of, trim_start_chars};

verus! {

/// The line endings of the input.
#[derive(Debug, Clone, Copy, PartialEq, Eq, Structural)]
pub enum LineEnding {
    Lf,
    Crlf,
}

/// The input with its newlines unified, and the line ending to restore.
#[derive(Debug, Clone)]
pub struct NormalizedInput {
    pub source: String,
    pub line_ending: LineEnding,
}

/// `s` with every `"\r\n"` and every other `'\r'` turned into `'\n'`.
pub open spec fn unify_newlines(s: Seq<char>) -> Seq<char>
    decreases s.len(),
{
    if s.len() == 0 {
        Seq::empty()
    } else if s[0] == '\r' {
        if s.len() > 1 && s[1] == '\n' {
            seq!['\n'] + unify_newlines(s.subrange(2, s.len() as int))
        } else {
            seq!['\n'] + unify_newlines(s.drop_first())
        }
    } else {
        seq![s[0]] + unify_newlines(s.drop_first())
    }
}

/// `"\r\n"` stands at `i`.
pub open spec fn crlf_at(s: Seq<char>, i: int) -> bool {
    0 <= i && i + 1 < s.len() && s[i] == '\r' && s[i + 1] == '\n'
}

/// The text ends its lines with `"\r\n"` and nothing else: it has at least
/// one `"\r\n"`, every `'\r'` is followed by `'\n'` and every `'\n'` follows
/// a `'\r'`.
pub open spec fn crlf_only(s: Seq<char>) -> bool {
    &&& exists|i: int| #[trigger] crlf_at(s, i)
    &&& forall|i: int| 0 <= i < s.len() && s[i] == '\r' ==> #[trigger] crlf_at(s, i)
    &&& forall|i: int| 0 <= i < s.len() && #[trigger] s[i] == '\n' ==> crlf_at(s, i - 1)
}

/// `s` with a `'\r'` put before every `'\n'`.
pub open spec fn with_crlf(s: Seq<char>) -> Seq<char>
    decreases s.len(),
{
    if s.len() == 0 {
        Seq::empty()
    } else if s[0] == '\n' {
        seq!['\r', '\n'] + with_crlf(s.drop_first())
    } else {
        seq![s[0]] + with_crlf(s.drop_first())
    }
}

/// Turns every `"\r\n"` and every other `'\r'` into `'\n'`.
pub fn normalize_newlines(input: &[char]) -> (r: Vec<char>)
    ensures
        r@ == unify_newlines(input@),
{
    let mut out: Vec<char> = Vec::new();
    let mut i: usize = 0;
    assert(input@.subrange(0, input@.len() as int) =~= input@);
    while i < input.len()
        invariant
            i <= input@.len(),
            out@ + unify_newlines(input@.subrange(i as int, input@.len() as int)) == unify_newlines(
                input@,
            ),
        decreases input@.len() - i,
    {
        let ghost rest = input@.subrange(i as int, input@.len() as int);
        assert(rest[0] == input@[i as int]);
        if input[i] == '\r' {
            if i + 1 < input.len() && input[i + 1] == '\n' {
                assert(rest[1] == input@[i + 1]);
                assert(rest.subrange(2, rest.len() as int) =~= input@.subrange(
                    i + 2,
                    input@.len() as int,
                ));
                let ghost tail = unify_newlines(input@.subrange(i + 2, input@.len() as int));
                assert(out@ + (seq!['\n'] + tail) =~= out@.push('\n') + tail);
                out.push('\n');
                i = i + 2;
            } else {
                assert(rest.drop_first() =~= input@.subrange(i + 1, input@.len() as int));
                let ghost tail = unify_newlines(input@.subrange(i + 1, input@.len() as int));
                assert(out@ + (seq!['\n'] + tail) =~= out@.push('\n') + tail);
                out.push('\n');
                i = i + 1;
            }
        } else {
            assert(rest.drop_first() =~= input@.subrange(i + 1, input@.len() as int));
            let ghost tail = unify_newlines(input@.subrange(i + 1, input@.len() as int));
            assert(out@ + (seq![input@[i as int]] + tail) =~= out@.push(input@[i as int]) + tail);
            out.push(input[i]);
            i = i + 1;
        }
    }
    assert(input@.subrange(i as int, input@.len() as int) =~= Seq::<char>::empty());
    assert(out@ + Seq::<char>::empty() =~= out@);
    out
}

/// Unifying newlines leaves no `'\r'`.
pub proof fn lemma_unified_has_no_cr(s: Seq<char>)
    ensures
        !unify_newlines(s).contains('\r'),
    decreases s.len(),
{
    if s.len() > 0 {
        let (head, rest) = if s[0] == '\r' && s.len() > 1 && s[1] == '\n' {
            (seq!['\n'], s.subrange(2, s.len() as int))
        } else if s[0] == '\r' {
            (seq!['\n'], s.drop_first())
        } else {
            (seq![s[0]], s.drop_first())
        };
        lemma_unified_has_no_cr(rest);
        let u = unify_newlines(s);
        assert(u == head + unify_newlines(rest));
        if u.contains('\r') {
            let k = choose|k: int| 0 <= k < u.len() && u[k] == '\r';
            if k > 0 {
                assert(unify_newlines(rest)[k - 1] == '\r');
            }
        }
    }
}

/// Reading back a text written with CRLF line endings restores it: for a
/// text without `'\r'`, unifying the newlines of its CRLF form gives the
/// text again, and where it has a line break that form ends its lines with
/// `"\r\n"` and nothing else.
pub proof fn lemma_crlf_round_trip(t: Seq<char>)
    requires
        !t.contains('\r'),
    ensures
        unify_newlines(with_crlf(t)) == t,
        t.contains('\n') ==> crlf_only(with_crlf(t)),
{
    lemma_crlf_unify(t);
    lemma_crlf_shape(t);
    if t.contains('\n') {
        let k = choose|k: int| 0 <= k < t.len() && t[k] == '\n';
        lemma_crlf_has_pair(t, k);
    }
}

/// Unifying the newlines of the CRLF form of a text without `'\r'` gives
/// the text.
proof fn lemma_crlf_unify(t: Seq<char>)
    requires
        !t.contains('\r'),
    ensures
        unify_newlines(with_crlf(t)) == t,
    decreases t.len(),
{
    if t.len() > 0 {
        let rest = t.drop_first();
        assert(!rest.contains('\r')) by {
            if rest.contains('\r') {
                let k = choose|k: int| 0 <= k < rest.len() && rest[k] == '\r';
                assert(t[k + 1] == '\r');
            }
        }
        lemma_crlf_unify(rest);
        let w = with_crlf(t);
        if t[0] == '\n' {
            assert(w == seq!['\r', '\n'] + with_crlf(rest));
            assert(w.subrange(2, w.len() as int) =~= with_crlf(rest));
            assert(unify_newlines(w) == seq!['\n'] + unify_newlines(with_crlf(rest)));
        } else {
            assert(t[0] != '\r');
            assert(w == seq![t[0]] + with_crlf(rest));
            assert(w.drop_first() =~= with_crlf(rest));
            assert(unify_newlines(w) == seq![t[0]] + unify_newlines(with_crlf(rest)));
        }
        assert(t =~= seq![t[0]] + rest);
    }
}

/// In the CRLF form of a text without `'\r'`, every `'\r'` is followed by
/// `'\n'` and every `'\n'` follows a `'\r'`.
proof fn lemma_crlf_shape(t: Seq<char>)
    requires
        !t.contains('\r'),
    ensures
        forall|i: int| 0 <= i < with_crlf(t).len() && with_crlf(t)[i] == '\r' ==> #[trigger] crlf_at(
            with_crlf(t),
            i,
        ),
        forall|i: int| 0 <= i < with_crlf(t).len() && #[trigger] with_crlf(t)[i] == '\n' ==> crlf_at(
            with_crlf(t),
            i - 1,
        ),
    decreases t.len(),
{
    if t.len() > 0 {
        let rest = t.drop_first();
        assert(!rest.contains('\r')) by {
            if rest.contains('\r') {
                let k = choose|k: int| 0 <= k < rest.len() && rest[k] == '\r';
                assert(t[k + 1] == '\r');
            }
        }
        lemma_crlf_shape(rest);
        let w = with_crlf(t);
        let r = with_crlf(rest);
        let head: Seq<char> = if t[0] == '\n' {
            seq!['\r', '\n']
        } else {
            seq![t[0]]
        };
        assert(w == head + r);
        assert(t[0] != '\r');
        assert forall|i: int| 0 <= i < w.len() && w[i] == '\r' implies #[trigger] crlf_at(w, i) by {
            if i >= head.len() {
                let j = i - head.len();
                assert(w[i] == r[j]);
                assert(crlf_at(r, j));
                assert(w[i + 1] == r[j + 1]);
            } else {
                assert(t[0] == '\n' && i == 0);
            }
        }
        assert forall|i: int| 0 <= i < w.len() && #[trigger] w[i] == '\n' implies crlf_at(w, i - 1) by {
            if i >= head.len() {
                let j = i - head.len();
                assert(w[i] == r[j]);
                assert(crlf_at(r, j - 1));
                assert(w[i - 1] == r[j - 1]);
            } else if head.len() == 2 {
                assert(i == 1);
            } else {
                assert(w[0] == t[0]);
            }
        }
    }
}

/// A line break in the text gives a `"\r\n"` in its CRLF form.
proof fn lemma_crlf_has_pair(t: Seq<char>, k: int)
    requires
        0 <= k < t.len(),
        t[k] == '\n',
    ensures
        exists|i: int| #[trigger] crlf_at(with_crlf(t), i),
    decreases t.len(),
{
    let rest = t.drop_first();
    let w = with_crlf(t);
    if k == 0 {
        assert(w == seq!['\r', '\n'] + with_crlf(rest));
        assert(crlf_at(w, 0));
    } else {
        assert(rest[k - 1] == '\n');
        lemma_crlf_has_pair(rest, k - 1);
        let r = with_crlf(rest);
        let j = choose|j: int| #[trigger] crlf_at(r, j);
        let head: Seq<char> = if t[0] == '\n' {
            seq!['\r', '\n']
        } else {
            seq![t[0]]
        };
        assert(w == head + r);
        assert(w[j + head.len()] == r[j]);
        assert(w[j + head.len() + 1] == r[j + 1]);
        assert(crlf_at(w, j + head.len()));
    }
}

/// Unifying newlines never lengthens a text.
pub proof fn lemma_unify_shorter(s: Seq<char>)
    ensures
        unify_newlines(s).len() <= s.len(),
    decreases s.len(),
{
    if s.len() > 0 {
        if s[0] == '\r' && s.len() > 1 && s[1] == '\n' {
            lemma_unify_shorter(s.subrange(2, s.len() as int));
        } else {
            lemma_unify_shorter(s.drop_first());
        }
    }
}

/// Whether the text ends its lines with `"\r\n"` and nothing else.
pub fn detect_line_ending(input: &[char]) -> (r: LineEnding)
    ensures
        r == (if crlf_only(input@) {
            LineEnding::Crlf
        } else {
            LineEnding::Lf
        }),
{
    let ghost s = input@;
    let mut i: usize = 0;
    let mut crlf_count: usize = 0;
    let mut other_newline_count: usize = 0;
    while i < input.len()
        invariant
            s == input@,
            i <= s.len(),
            crlf_count <= i,
            other_newline_count <= i,
            crlf_count > 0 <==> exists|j: int| 0 <= j && j + 1 < i && #[trigger] crlf_at(s, j),
            other_newline_count == 0 <==> (forall|j: int|
                0 <= j < i && s[j] == '\r' ==> #[trigger] crlf_at(s, j)) && (forall|j: int|
                0 <= j < i && #[trigger] s[j] == '\n' ==> crlf_at(s, j - 1)),
            forall|j: int| 0 <= j < i && s[j] == '\r' && #[trigger] crlf_at(s, j) ==> j + 1 < i,
            0 < i < s.len() && s[i - 1] == '\r' ==> s[i as int] != '\n',
        decreases s.len() - i,
    {
        if input[i] == '\r' {
            if i + 1 < input.len() && input[i + 1] == '\n' {
                assert(crlf_at(s, i as int));
                crlf_count = crlf_count + 1;
                i = i + 2;
            } else {
                assert(!crlf_at(s, i as int));
                other_newline_count = other_newline_count + 1;
                i = i + 1;
            }
            continue;
        }
        if input[i] == '\n' {
            assert(!crlf_at(s, i - 1));
            other_newline_count = other_newline_count + 1;
        }
        i = i + 1;
    }
    assert(crlf_count > 0 <==> exists|j: int| #[trigger] crlf_at(s, j)) by {
        if exists|j: int| #[trigger] crlf_at(s, j) {
            let j = choose|j: int| #[trigger] crlf_at(s, j);
            assert(0 <= j && j + 1 < i);
        }
    }
    if crlf_count > 0 && other_newline_count == 0 {
        LineEnding::Crlf
    } else {
        LineEnding::Lf
    }
}

/// Puts a `'\r'` before every `'\n'` when the line ending is CRLF.
pub fn apply_line_ending_policy(input: &[char], line_ending: LineEnding) -> (r: Vec<char>)
    ensures
        r@ == (if line_ending == LineEnding::Lf || !input@.contains('\n') {
            input@
        } else {
            with_crlf(input@)
        }),
{
    if line_ending == LineEnding::Lf || !crate::text::contains_char(input, '\n') {
        return crate::text::copy_chars(input);
    }
    let mut out: Vec<char> = Vec::new();
    let mut i: usize = 0;
    assert(input@.subrange(0, input@.len() as int) =~= input@);
    while i < input.len()
        invariant
            i <= input@.len(),
            out@ + with_crlf(input@.subrange(i as int, input@.len() as int)) == with_crlf(input@),
        decreases input@.len() - i,
    {
        let ghost rest = input@.subrange(i as int, input@.len() as int);
        assert(rest[0] == input@[i as int]);
        assert(rest.drop_first() =~= input@.subrange(i + 1, input@.len() as int));
        let ghost tail = with_crlf(input@.subrange(i + 1, input@.len() as int));
        if input[i] == '\n' {
            assert(out@ + (seq!['\r', '\n'] + tail) =~= out@.push('\r').push('\n') + tail);
            out.push('\r');
            out.push('\n');
        } else {
            assert(out@ + (seq![input@[i as int]] + tail) =~= out@.push(input@[i as int]) + tail);
            out.push(input[i]);
        }
        i = i + 1;
    }
    assert(input@.subrange(i as int, input@.len() as int) =~= Seq::<char>::empty());
    assert(out@ + Seq::<char>::empty() =~= out@);
    out
}

/// The input with its newlines unified, and whether to restore CRLF.
pub fn normalize_input(input: &str) -> (r: NormalizedInput)
    ensures
        r.source@ == unify_newlines(input@),
        r.line_ending == (if crlf_only(input@) {
            LineEnding::Crlf
        } else {
            LineEnding::Lf
        }),
{
    let chars = chars_of(input);
    let source = normalize_newlines(&chars);
    NormalizedInput { source: string_of(&source), line_ending: detect_line_ending(&chars) }
}


/// The lines of a list of character vectors.
pub open spec fn lines_view(v: Seq<Vec<char>>) -> Seq<Seq<char>> {
    v.map_values(|l: Vec<char>| l@)
}

/// The line is an import.
pub open spec fn is_import_line(l: Seq<char>) -> bool {
    seq_starts_with(l, "import "@)
}

/// The line is a static import.
pub open spec fn is_static_import(l: Seq<char>) -> bool {
    seq_starts_with(l, "import static "@)
}

/// The line starts a comment or continues a block comment.
pub open spec fn is_comment_line(l: Seq<char>) -> bool {
    seq_starts_with(l, "//"@) || seq_starts_with(l, "/*"@) || seq_starts_with(l, "*"@)
        || seq_starts_with(l, "*/"@)
}

/// A line that may come before the imports: empty, the package clause, or a
/// line of a leading comment (such as a licence header).
pub open spec fn header_line(l: Seq<char>) -> bool {
    l.len() == 0 || seq_starts_with(l, "package "@) || is_comment_line(spec_trim_start(l))
}

/// The first import line at or after `i`.
pub open spec fn first_import(lines: Seq<Seq<char>>, i: int) -> Option<int>
    decreases lines.len() - i,
{
    if i < 0 || i >= lines.len() {
        None
    } else if is_import_line(lines[i]) {
        Some(i)
    } else {
        first_import(lines, i + 1)
    }
}

/// The first line at or after `i` that is neither an import nor empty, or
/// the line count.
pub open spec fn block_end(lines: Seq<Seq<char>>, i: int) -> int
    decreases lines.len() - i,
{
    if i < 0 || i >= lines.len() {
        lines.len() as int
    } else if is_import_line(lines[i]) || lines[i].len() == 0 {
        block_end(lines, i + 1)
    } else {
        i
    }
}

/// The first non-empty line at or after `i`, or the line count.
pub open spec fn skip_blank(lines: Seq<Seq<char>>, i: int) -> int
    decreases lines.len() - i,
{
    if i < 0 || i >= lines.len() {
        lines.len() as int
    } else if lines[i].len() == 0 {
        skip_blank(lines, i + 1)
    } else {
        i
    }
}

/// The block of imports at the top of the file: where it starts, where it
/// ends, and where the lines after it go on past blank lines. `None` when
/// there is no import, something other than a package clause, a leading
/// comment or blank lines comes before the first one, or a comment ends the
/// block.
pub open spec fn import_block(lines: Seq<Seq<char>>) -> Option<(int, int, int)> {
    match first_import(lines, 0) {
        None => None,
        Some(start) => if !(forall|j: int|
            0 <= j < start ==> header_line(#[trigger] lines[j])) {
            None
        } else {
            let end = block_end(lines, start);
            if end < lines.len() && is_comment_line(lines[end]) {
                None
            } else {
                Some((start, end, skip_blank(lines, end)))
            }
        },
    }
}

/// `x` comes before `y` or equals it, character by character.
pub open spec fn lex_le(x: Seq<char>, y: Seq<char>) -> bool
    decreases x.len(),
{
    if x.len() == 0 {
        true
    } else if y.len() == 0 {
        false
    } else if (x[0] as u32) < (y[0] as u32) {
        true
    } else if (x[0] as u32) > (y[0] as u32) {
        false
    } else {
        lex_le(x.drop_first(), y.drop_first())
    }
}

/// `x` put into the sorted `s` before the first line it does not follow.
pub open spec fn insert_line(x: Seq<char>, s: Seq<Seq<char>>) -> Seq<Seq<char>>
    decreases s.len(),
{
    if s.len() == 0 {
        seq![x]
    } else if lex_le(x, s[0]) {
        seq![x] + s
    } else {
        seq![s[0]] + insert_line(x, s.drop_first())
    }
}

/// The lines in order.
pub open spec fn sort_lines(s: Seq<Seq<char>>) -> Seq<Seq<char>>
    decreases s.len(),
{
    if s.len() == 0 {
        Seq::empty()
    } else {
        insert_line(s.last(), sort_lines(s.drop_last()))
    }
}

/// The lines joined by newlines.
pub open spec fn join_lines(ls: Seq<Seq<char>>) -> Seq<char>
    decreases ls.len(),
{
    if ls.len() == 0 {
        Seq::empty()
    } else if ls.len() == 1 {
        ls[0]
    } else {
        join_lines(ls.drop_last()) + seq!['\n'] + ls.last()
    }
}

/// The lines of the text with the import block reordered: the lines before
/// it, the static imports in order, a blank line, the other imports in order,
/// and, when lines follow the block, a blank line and those lines from the
/// first non-blank one.
pub open spec fn rebuilt_lines(lines: Seq<Seq<char>>, start: int, end: int, suffix: int) -> Seq<Seq<char>> {
    let block = lines.subrange(start, end).filter(|l: Seq<char>| l.len() > 0);
    let statics = sort_lines(block.filter(|l: Seq<char>| is_static_import(l)));
    let normals = sort_lines(block.filter(|l: Seq<char>| !is_static_import(l)));
    lines.subrange(0, start) + statics + (if statics.len() > 0 && normals.len() > 0 {
        seq![Seq::<char>::empty()]
    } else {
        Seq::empty()
    }) + normals + (if end < lines.len() {
        seq![Seq::<char>::empty()] + lines.subrange(suffix, lines.len() as int)
    } else {
        Seq::empty()
    })
}

/// The text with its top-level imports reordered, or the text itself when
/// it has no import block to reorder or reordering changes nothing.
pub open spec fn reordered(input: Seq<char>) -> Seq<char> {
    if !seq_contains(input, "import "@) {
        input
    } else {
        let lines = spec_lines(input);
        match import_block(lines) {
            None => input,
            Some((start, end, suffix)) => {
                let text = join_lines(rebuilt_lines(lines, start, end, suffix)) + (if input.len() > 0
                    && input.last() == '\n' {
                    seq!['\n']
                } else {
                    Seq::empty()
                });
                text
            },
        }
    }
}


/// Whether `x` comes before `y` or equals it, character by character.
pub fn lex_le_chars(x: &[char], y: &[char]) -> (r: bool)
    ensures
        r == lex_le(x@, y@),
{
    let mut i: usize = 0;
    assert(x@.subrange(0, x@.len() as int) =~= x@);
    assert(y@.subrange(0, y@.len() as int) =~= y@);
    while i < x.len() && i < y.len()
        invariant
            i <= x@.len(),
            i <= y@.len(),
            lex_le(x@, y@) == lex_le(
                x@.subrange(i as int, x@.len() as int),
                y@.subrange(i as int, y@.len() as int),
            ),
        decreases x@.len() - i,
    {
        let ghost xs = x@.subrange(i as int, x@.len() as int);
        let ghost ys = y@.subrange(i as int, y@.len() as int);
        assert(xs[0] == x@[i as int] && ys[0] == y@[i as int]);
        if (x[i] as u32) < (y[i] as u32) {
            return true;
        }
        if (x[i] as u32) > (y[i] as u32) {
            return false;
        }
        assert(xs.drop_first() =~= x@.subrange(i + 1, x@.len() as int));
        assert(ys.drop_first() =~= y@.subrange(i + 1, y@.len() as int));
        i = i + 1;
    }
    i == x.len()
}

/// Puts `x` into the sorted lines before the first line it does not follow.
fn insert_sorted(sorted: &mut Vec<Vec<char>>, x: Vec<char>)
    ensures
        lines_view(final(sorted)@) == insert_line(x@, lines_view(old(sorted)@)),
{
    let ghost s = lines_view(sorted@);
    let mut p: usize = 0;
    assert(s.subrange(0, s.len() as int) =~= s);
    assert(s.subrange(0, 0) + s.subrange(0, s.len() as int) =~= s);
    while p < sorted.len() && !lex_le_chars(&x, &sorted[p])
        invariant
            s == lines_view(sorted@),
            p <= s.len(),
            insert_line(x@, s) == s.subrange(0, p as int) + insert_line(
                x@,
                s.subrange(p as int, s.len() as int),
            ),
        decreases s.len() - p,
    {
        let ghost rest = s.subrange(p as int, s.len() as int);
        assert(rest[0] == s[p as int]);
        assert(sorted@[p as int]@ == s[p as int]);
        assert(rest.drop_first() =~= s.subrange(p + 1, s.len() as int));
        assert(s.subrange(0, p as int) + (seq![s[p as int]] + insert_line(
            x@,
            s.subrange(p + 1, s.len() as int),
        )) =~= s.subrange(0, p + 1) + insert_line(x@, s.subrange(p + 1, s.len() as int)));
        p = p + 1;
    }
    let ghost rest = s.subrange(p as int, s.len() as int);
    if p < sorted.len() {
        assert(sorted@[p as int]@ == s[p as int]);
        assert(rest[0] == s[p as int]);
    }
    let ghost xv = x@;
    sorted.insert(p, x);
    assert(lines_view(sorted@) =~= s.subrange(0, p as int) + (seq![xv] + rest));
    proof {
        if p == s.len() {
            assert(rest =~= Seq::<Seq<char>>::empty());
            assert(seq![xv] + rest =~= seq![xv]);
        }
    }
}

/// The lines in order (see `sort_lines`).
pub fn sort_line_list(v: &Vec<Vec<char>>) -> (r: Vec<Vec<char>>)
    ensures
        lines_view(r@) == sort_lines(lines_view(v@)),
{
    let mut sorted: Vec<Vec<char>> = Vec::new();
    let mut i: usize = 0;
    let ghost all = lines_view(v@);
    while i < v.len()
        invariant
            all == lines_view(v@),
            i <= v@.len(),
            lines_view(sorted@) == sort_lines(all.subrange(0, i as int)),
        decreases v@.len() - i,
    {
        let x = crate::text::copy_chars(&v[i]);
        assert(all.subrange(0, i + 1).drop_last() =~= all.subrange(0, i as int));
        assert(all.subrange(0, i + 1).last() == v@[i as int]@);
        insert_sorted(&mut sorted, x);
        i = i + 1;
    }
    assert(all.subrange(0, i as int) =~= all);
    sorted
}

/// The line starts a comment or continues a block comment.
pub fn is_import_block_comment_line(line: &[char]) -> (r: bool)
    ensures
        r == is_comment_line(line@),
{
    starts_with(line, "//") || starts_with(line, "/*") || starts_with(line, "*") || starts_with(
        line,
        "*/",
    )
}

/// The first non-empty line at or after `index`, or the line count.
pub fn skip_blank_lines(lines: &Vec<Vec<char>>, index: usize) -> (r: usize)
    requires
        index <= lines@.len(),
    ensures
        r == skip_blank(lines_view(lines@), index as int),
{
    let ghost ls = lines_view(lines@);
    let mut i = index;
    while i < lines.len() && lines[i].len() == 0
        invariant
            ls == lines_view(lines@),
            index <= i <= ls.len(),
            skip_blank(ls, index as int) == skip_blank(ls, i as int),
        decreases lines@.len() - i,
    {
        assert(ls[i as int] == lines@[i as int]@);
        i = i + 1;
    }
    if i < lines.len() {
        assert(ls[i as int] == lines@[i as int]@);
    }
    i
}

/// The block ends at or after where it starts, and within the lines.
pub proof fn lemma_block_end(lines: Seq<Seq<char>>, i: int)
    requires
        0 <= i,
    ensures
        block_end(lines, i) <= lines.len(),
        i <= lines.len() ==> i <= block_end(lines, i),
    decreases lines.len() - i,
{
    if i < lines.len() && (is_import_line(lines[i]) || lines[i].len() == 0) {
        lemma_block_end(lines, i + 1);
    }
}

/// The import block runs over empty lines: from `start`, it ends at the
/// first line that neither starts with `import ` nor is empty (or at the end
/// of the lines), so a blank line between two groups of imports does not end
/// it.
pub proof fn law_block_end_spans_blank_lines(lines: Seq<Seq<char>>, start: int, e: int)
    requires
        0 <= start <= e <= lines.len(),
        forall|k: int|
            start <= k < e ==> seq_starts_with(#[trigger] lines[k], "import "@) || lines[k].len()
                == 0,
        e < lines.len() ==> !seq_starts_with(lines[e], "import "@) && lines[e].len() != 0,
    ensures
        block_end(lines, start) == e,
    decreases e - start,
{
    if start < e {
        law_block_end_spans_blank_lines(lines, start + 1, e);
    }
}

proof fn lemma_first_import(lines: Seq<Seq<char>>, i: int)
    requires
        0 <= i,
    ensures
        first_import(lines, i) matches Some(k) ==> i <= k < lines.len() && is_import_line(lines[k]),
    decreases lines.len() - i,
{
    if i < lines.len() && !is_import_line(lines[i]) {
        lemma_first_import(lines, i + 1);
    }
}

/// Where an import block lies.
proof fn lemma_import_block(lines: Seq<Seq<char>>)
    ensures
        import_block(lines) matches Some((a, b, c)) ==> 0 <= a < lines.len() && is_import_line(lines[a])
            && b == block_end(lines, a) && a < b <= lines.len() && c == skip_blank(lines, b) && c
            <= lines.len(),
{
    lemma_first_import(lines, 0);
    match first_import(lines, 0) {
        Some(a) => {
            lemma_block_end(lines, a);
            lemma_block_end(lines, a + 1);
            lemma_skip_blank(lines, block_end(lines, a));
        },
        None => {},
    }
}

/// Where the import block that starts at `start` ends: at the first line
/// that is neither an import nor empty, or at the end; `None` when that line
/// is a comment.
pub fn scan_import_block_end(lines: &Vec<Vec<char>>, start: usize) -> (r: Option<usize>)
    requires
        start < lines@.len(),
    ensures
        r == (if block_end(lines_view(lines@), start as int) < lines@.len() && is_comment_line(
            lines_view(lines@)[block_end(lines_view(lines@), start as int)],
        ) {
            None
        } else {
            Some(block_end(lines_view(lines@), start as int) as usize)
        }),
        r matches Some(e) ==> e <= lines@.len(),
{
    proof {
        reveal_strlit("import ");
        lemma_block_end(lines_view(lines@), start as int);
    }
    let ghost ls = lines_view(lines@);
    let mut end = start;
    while end < lines.len()
        invariant
            ls == lines_view(lines@),
            start <= end <= ls.len(),
            block_end(ls, start as int) == block_end(ls, end as int),
            block_end(ls, start as int) <= ls.len(),
        decreases lines@.len() - end,
    {
        let line = &lines[end];
        assert(ls[end as int] == line@);
        if starts_with(line, "import ") || line.len() == 0 {
            end = end + 1;
            continue;
        }
        return if is_import_block_comment_line(line) {
            None
        } else {
            Some(end)
        };
    }
    Some(end)
}

/// The import block at the top of the file (see `import_block`).
pub fn find_import_block(lines: &Vec<Vec<char>>) -> (r: Option<(usize, usize, usize)>)
    ensures
        match r {
            Some((a, b, c)) => import_block(lines_view(lines@)) == Some((a as int, b as int, c as int)),
            None => import_block(lines_view(lines@)) is None,
        },
{
    proof {
        reveal_strlit("import ");
        reveal_strlit("package ");
    }
    let ghost ls = lines_view(lines@);
    if lines.len() == 0 {
        return None;
    }
    let mut start: usize = 0;
    let mut prefix_ok = true;
    while start < lines.len() && !starts_with(&lines[start], "import ")
        invariant
            ls == lines_view(lines@),
            start <= ls.len(),
            first_import(ls, 0) == first_import(ls, start as int),
            prefix_ok == (forall|j: int| 0 <= j < start ==> header_line(#[trigger] ls[j])),
        decreases lines@.len() - start,
    {
        assert(ls[start as int] == lines@[start as int]@);
        let trimmed = trim_start_chars(&lines[start]);
        if !(lines[start].len() == 0 || starts_with(&lines[start], "package ")
            || is_import_block_comment_line(&trimmed)) {
            prefix_ok = false;
        }
        start = start + 1;
    }
    if start == lines.len() {
        return None;
    }
    assert(ls[start as int] == lines@[start as int]@);
    if !prefix_ok {
        return None;
    }
    assert(is_import_line(ls[start as int]));
    assert(first_import(ls, start as int) == Some(start as int));
    proof {
        lemma_block_end(ls, start as int);
    }
    let ghost be = block_end(ls, start as int);
    assert(be <= lines@.len());
    match scan_import_block_end(lines, start) {
        None => None,
        Some(end) => {
            assert(end as int == be);
            let suffix = skip_blank_lines(lines, end);
            assert(import_block(ls) == Some((start as int, end as int, suffix as int)));
            Some((start, end, suffix))
        },
    }
}


/// The non-empty lines of `lines[start..end]`, parted into static imports
/// and the others, each in its order; `None` when there is none.
pub fn split_import_groups(lines: &Vec<Vec<char>>, start: usize, end: usize) -> (r: Option<(Vec<Vec<char>>, Vec<Vec<char>>)>)
    requires
        start <= end <= lines@.len(),
    ensures
        ({
            let block = lines_view(lines@).subrange(start as int, end as int).filter(
                |l: Seq<char>| l.len() > 0,
            );
            match r {
                None => block.len() == 0,
                Some((st, no)) => block.len() > 0 && lines_view(st@) == block.filter(
                    |l: Seq<char>| is_static_import(l),
                ) && lines_view(no@) == block.filter(|l: Seq<char>| !is_static_import(l)),
            }
        }),
{
    proof {
        reveal_strlit("import static ");
    }
    let ghost ls = lines_view(lines@);
    let mut statics: Vec<Vec<char>> = Vec::new();
    let mut normals: Vec<Vec<char>> = Vec::new();
    let mut count: usize = 0;
    let mut i = start;
    assert(ls.subrange(start as int, start as int) =~= Seq::<Seq<char>>::empty());
    while i < end
        invariant
            ls == lines_view(lines@),
            start <= i <= end <= ls.len(),
            count == ls.subrange(start as int, i as int).filter(|l: Seq<char>| l.len() > 0).len(),
            count <= i - start,
            lines_view(statics@) == ls.subrange(start as int, i as int).filter(|l: Seq<char>| l.len() > 0).filter(|l: Seq<char>| is_static_import(l)),
            lines_view(normals@) == ls.subrange(start as int, i as int).filter(|l: Seq<char>| l.len() > 0).filter(|l: Seq<char>| !is_static_import(l)),
        decreases end - i,
    {
        let ghost sub = ls.subrange(start as int, i as int);
        let line = &lines[i];
        let ghost x = line@;
        assert(ls[i as int] == x);
        assert(ls.subrange(start as int, i + 1) =~= sub.push(x));
        proof {
            sub.lemma_filter_push(x, |l: Seq<char>| l.len() > 0);
        }
        if line.len() > 0 {
            proof {
                sub.filter(|l: Seq<char>| l.len() > 0).lemma_filter_push(x, |l: Seq<char>| is_static_import(l));
                sub.filter(|l: Seq<char>| l.len() > 0).lemma_filter_push(x, |l: Seq<char>| !is_static_import(l));
            }
            let copy = crate::text::copy_chars(line);
            if starts_with(line, "import static ") {
                let ghost before = lines_view(statics@);
                statics.push(copy);
                assert(lines_view(statics@) =~= before.push(x));
            } else {
                let ghost before = lines_view(normals@);
                normals.push(copy);
                assert(lines_view(normals@) =~= before.push(x));
            }
            count = count + 1;
        }
        assert(ls.subrange(start as int, i + 1).filter(|l: Seq<char>| l.len() > 0) == (if x.len() > 0 {
            sub.filter(|l: Seq<char>| l.len() > 0).push(x)
        } else {
            sub.filter(|l: Seq<char>| l.len() > 0)
        }));
        i = i + 1;
    }
    if count == 0 {
        return None;
    }
    Some((statics, normals))
}

/// Appends a line, after a newline unless it is the first.
fn push_output_line(out: &mut Vec<char>, first_line: &mut bool, line: &[char], written: Ghost<Seq<Seq<char>>>)
    requires
        old(out)@ == join_lines(written@),
        *old(first_line) == (written@.len() == 0),
    ensures
        final(out)@ == join_lines(written@.push(line@)),
        *final(first_line) == false,
{
    let ghost w = written@;
    assert(w.push(line@).drop_last() =~= w);
    if !*first_line {
        out.push('\n');
    } else {
        assert(w =~= Seq::<Seq<char>>::empty());
        assert(out@ =~= Seq::<char>::empty());
    }
    crate::text::push_chars(out, line);
    *first_line = false;
    proof {
        if w.len() == 0 {
            assert(w.push(line@) =~= seq![line@]);
            assert(out@ =~= line@);
        }
    }
}

/// Appends the lines `from[a..b]`.
fn push_output_lines(
    out: &mut Vec<char>,
    first_line: &mut bool,
    from: &Vec<Vec<char>>,
    a: usize,
    b: usize,
    written: Ghost<Seq<Seq<char>>>,
)
    requires
        a <= b <= from@.len(),
        old(out)@ == join_lines(written@),
        *old(first_line) == (written@.len() == 0),
    ensures
        final(out)@ == join_lines(written@ + lines_view(from@).subrange(a as int, b as int)),
        *final(first_line) == (written@.len() == 0 && a == b),
{
    let ghost fv = lines_view(from@);
    let mut k = a;
    assert(written@ + fv.subrange(a as int, a as int) =~= written@);
    while k < b
        invariant
            fv == lines_view(from@),
            a <= k <= b <= fv.len(),
            out@ == join_lines(written@ + fv.subrange(a as int, k as int)),
            *first_line == (written@.len() == 0 && a == k),
        decreases b - k,
    {
        let ghost w = written@ + fv.subrange(a as int, k as int);
        assert(fv[k as int] == from@[k as int]@);
        push_output_line(out, first_line, &from[k], Ghost(w));
        assert(w.push(fv[k as int]) =~= written@ + fv.subrange(a as int, k + 1));
        k = k + 1;
    }
}

/// The text with the import block reordered (see `rebuilt_lines`), with a
/// final newline when the text had one.
pub fn rebuild_reordered_imports(
    lines: &Vec<Vec<char>>,
    preserve_trailing_newline: bool,
    start: usize,
    end: usize,
    suffix_start: usize,
    static_imports: &Vec<Vec<char>>,
    normal_imports: &Vec<Vec<char>>,
) -> (r: Vec<char>)
    requires
        start <= end <= lines@.len(),
        suffix_start <= lines@.len(),
    ensures
        r@ == join_lines(
            lines_view(lines@).subrange(0, start as int) + lines_view(static_imports@) + (if static_imports@.len() > 0
                && normal_imports@.len() > 0 {
                seq![Seq::<char>::empty()]
            } else {
                Seq::empty()
            }) + lines_view(normal_imports@) + (if end < lines@.len() {
                seq![Seq::<char>::empty()] + lines_view(lines@).subrange(
                    suffix_start as int,
                    lines@.len() as int,
                )
            } else {
                Seq::empty()
            }),
        ) + (if preserve_trailing_newline {
            seq!['\n']
        } else {
            Seq::empty()
        }),
{
    let ghost ls = lines_view(lines@);
    let ghost sv = lines_view(static_imports@);
    let ghost nv = lines_view(normal_imports@);
    let mut out: Vec<char> = Vec::new();
    let mut first_line = true;
    let empty: Vec<char> = Vec::new();
    push_output_lines(&mut out, &mut first_line, lines, 0, start, Ghost(Seq::empty()));
    let ghost w1 = Seq::<Seq<char>>::empty() + ls.subrange(0, start as int);
    push_output_lines(&mut out, &mut first_line, static_imports, 0, static_imports.len(), Ghost(w1));
    assert(sv.subrange(0, sv.len() as int) =~= sv);
    let ghost w2 = w1 + sv;
    let ghost mut w3 = w2;
    if static_imports.len() > 0 && normal_imports.len() > 0 {
        push_output_line(&mut out, &mut first_line, &empty, Ghost(w2));
        proof {
            w3 = w2.push(Seq::empty());
        }
    }
    push_output_lines(&mut out, &mut first_line, normal_imports, 0, normal_imports.len(), Ghost(w3));
    assert(nv.subrange(0, nv.len() as int) =~= nv);
    let ghost w4 = w3 + nv;
    let ghost mut w5 = w4;
    if end < lines.len() {
        push_output_line(&mut out, &mut first_line, &empty, Ghost(w4));
        push_output_lines(&mut out, &mut first_line, lines, suffix_start, lines.len(), Ghost(w4.push(Seq::empty())));
        proof {
            w5 = w4.push(Seq::empty()) + ls.subrange(suffix_start as int, ls.len() as int);
        }
    }
    let ghost tail = if end < lines@.len() {
        seq![Seq::<char>::empty()] + ls.subrange(suffix_start as int, ls.len() as int)
    } else {
        Seq::<Seq<char>>::empty()
    };
    let ghost sep = if static_imports@.len() > 0 && normal_imports@.len() > 0 {
        seq![Seq::<char>::empty()]
    } else {
        Seq::<Seq<char>>::empty()
    };
    assert(w5 =~= ls.subrange(0, start as int) + sv + sep + nv + tail);
    if preserve_trailing_newline {
        out.push('\n');
    }
    out
}

/// The text with its top-level imports reordered, or `None` when it has no
/// import block to reorder or reordering changes nothing.
pub fn try_reorder_top_level_imports(input: &[char]) -> (r: Option<Vec<char>>)
    requires
        seq_contains(input@, "import "@),
    ensures
        r matches Some(t) ==> t@ == reordered(input@) && t@ != input@,
        r is None ==> reordered(input@) == input@,
{
    let lines = lines_of(input);
    let ghost ls = spec_lines(input@);
    assert(lines_view(lines@) =~= ls);
    let (start, end, suffix_start) = match find_import_block(&lines) {
        Some(b) => b,
        None => {
            return None;
        },
    };
    proof {
        lemma_import_block(ls);
    }
    let (static_imports, normal_imports) = match split_import_groups(&lines, start, end) {
        Some(g) => g,
        None => {
            proof {
                lemma_first_import_in_block(ls, start as int);
            }
            return None;
        },
    };
    let statics = sort_line_list(&static_imports);
    let normals = sort_line_list(&normal_imports);
    let trailing = crate::text::ends_with_char(input, '\n');
    proof {
        reveal_strlit("import ");
        lemma_sort_len(lines_view(static_imports@));
        lemma_sort_len(lines_view(normal_imports@));
    }
    let reordered_text = rebuild_reordered_imports(
        &lines,
        trailing,
        start,
        end,
        suffix_start,
        &statics,
        &normals,
    );
    assert(reordered_text@ == reordered(input@));
    if crate::text::chars_eq(&reordered_text, input) {
        None
    } else {
        Some(reordered_text)
    }
}

proof fn lemma_first_import_in_block(ls: Seq<Seq<char>>, start: int)
    requires
        0 <= start < ls.len(),
        is_import_line(ls[start]),
    ensures
        ls.subrange(start, block_end(ls, start)).filter(|l: Seq<char>| l.len() > 0).len() > 0,
{
    lemma_block_end(ls, start);
    reveal_strlit("import ");
    let sub = ls.subrange(start, block_end(ls, start));
    lemma_block_end(ls, start + 1);
    assert(block_end(ls, start) > start);
    assert(sub[0] == ls[start]);
    assert(ls[start].len() > 0);
    let f = |l: Seq<char>| l.len() > 0;
    broadcast use vstd::seq_lib::group_filter_ensures;
    assert(sub.contains(sub[0]));
    assert(sub.filter(f).contains(sub[0]));
}

proof fn lemma_skip_blank(ls: Seq<Seq<char>>, i: int)
    requires
        0 <= i,
    ensures
        skip_blank(ls, i) <= ls.len(),
    decreases ls.len() - i,
{
    if i < ls.len() && ls[i].len() == 0 {
        lemma_skip_blank(ls, i + 1);
    }
}

proof fn lemma_insert_len(x: Seq<char>, s: Seq<Seq<char>>)
    ensures
        insert_line(x, s).len() == s.len() + 1,
    decreases s.len(),
{
    if s.len() > 0 && !lex_le(x, s[0]) {
        lemma_insert_len(x, s.drop_first());
    }
}

/// Sorting keeps the number of lines.
pub proof fn lemma_sort_len(s: Seq<Seq<char>>)
    ensures
        sort_lines(s).len() == s.len(),
    decreases s.len(),
{
    if s.len() > 0 {
        lemma_sort_len(s.drop_last());
        lemma_insert_len(s.last(), sort_lines(s.drop_last()));
    }
}

/// Puts the top-level imports in order: static imports first, each group
/// sorted, a blank line between the groups and after the block.
pub fn reorder_top_level_imports(input: String) -> (r: String)
    ensures
        r@ == reordered(input@),
{
    let chars = chars_of(input.as_str());
    if !crate::text::contains(&chars, "import ") {
        return input;
    }
    match try_reorder_top_level_imports(&chars) {
        Some(t) => string_of(&t),
        None => input,
    }
}

/// The formatted text as it is written out: imports in order, and CRLF line
/// endings where the input had them.
pub open spec fn finalized_output(output: Seq<char>, line_ending: LineEnding) -> Seq<char> {
    let t = reordered(output);
    if line_ending == LineEnding::Lf || !t.contains('\n') {
        t
    } else {
        with_crlf(t)
    }
}

/// An output finished with CRLF line endings reads back as it was written:
/// normalizing its newlines gives the reordered text, and its line endings
/// are detected as CRLF again (where the text has a line break and no
/// `'\r'` of its own).
pub proof fn lemma_finished_crlf_reads_back(output: Seq<char>)
    requires
        !reordered(output).contains('\r'),
        reordered(output).contains('\n'),
    ensures
        crlf_only(finalized_output(output, LineEnding::Crlf)),
        unify_newlines(finalized_output(output, LineEnding::Crlf)) == reordered(output),
{
    lemma_crlf_round_trip(reordered(output));
}

/// Reorders the imports and restores the line ending.
pub fn finalize_output(output: String, line_ending: LineEnding) -> (r: String)
    ensures
        r@ == finalized_output(output@, line_ending),
{
    let reordered_output = reorder_top_level_imports(output);
    let chars = chars_of(reordered_output.as_str());
    let done = apply_line_ending_policy(&chars, line_ending);
    string_of(&done)
}


/// The lines are in order.
pub open spec fn lines_sorted(s: Seq<Seq<char>>) -> bool {
    forall|i: int, j: int| 0 <= i < j < s.len() ==> lex_le(#[trigger] s[i], #[trigger] s[j])
}

/// Of two texts, one comes before the other or they are equal.
pub proof fn lemma_lex_le_total(x: Seq<char>, y: Seq<char>)
    ensures
        lex_le(x, y) || lex_le(y, x),
    decreases x.len(),
{
    if x.len() > 0 && y.len() > 0 && (x[0] as u32) == (y[0] as u32) {
        lemma_lex_le_total(x.drop_first(), y.drop_first());
    }
}

/// The order of texts is transitive.
pub proof fn lemma_lex_le_trans(x: Seq<char>, y: Seq<char>, z: Seq<char>)
    requires
        lex_le(x, y),
        lex_le(y, z),
    ensures
        lex_le(x, z),
    decreases x.len(),
{
    if x.len() > 0 && y.len() > 0 && z.len() > 0 && (x[0] as u32) == (y[0] as u32) && (y[0] as u32)
        == (z[0] as u32) {
        lemma_lex_le_trans(x.drop_first(), y.drop_first(), z.drop_first());
    }
}

proof fn lemma_insert_line_position(x: Seq<char>, s: Seq<Seq<char>>) -> (p: int)
    ensures
        0 <= p <= s.len(),
        insert_line(x, s) == s.insert(p, x),
    decreases s.len(),
{
    if s.len() == 0 {
        assert(s.insert(0, x) =~= seq![x]);
        0
    } else if lex_le(x, s[0]) {
        assert(s.insert(0, x) =~= seq![x] + s);
        0
    } else {
        let q = lemma_insert_line_position(x, s.drop_first());
        assert(seq![s[0]] + s.drop_first().insert(q, x) =~= s.insert(q + 1, x));
        q + 1
    }
}

proof fn lemma_insert_line_sorted(x: Seq<char>, s: Seq<Seq<char>>)
    requires
        lines_sorted(s),
    ensures
        lines_sorted(insert_line(x, s)),
    decreases s.len(),
{
    let r = insert_line(x, s);
    if s.len() == 0 {
    } else if lex_le(x, s[0]) {
        assert forall|i: int, j: int| 0 <= i < j < r.len() implies lex_le(#[trigger] r[i], #[trigger] r[j]) by {
            if i == 0 {
                assert(r[j] == s[j - 1]);
                if j - 1 > 0 {
                    lemma_lex_le_trans(x, s[0], s[j - 1]);
                }
            } else {
                assert(r[i] == s[i - 1] && r[j] == s[j - 1]);
            }
        }
    } else {
        let rest = s.drop_first();
        assert(lines_sorted(rest)) by {
            assert forall|i: int, j: int| 0 <= i < j < rest.len() implies lex_le(
                #[trigger] rest[i],
                #[trigger] rest[j],
            ) by {
                assert(rest[i] == s[i + 1] && rest[j] == s[j + 1]);
            }
        }
        lemma_insert_line_sorted(x, rest);
        let q = lemma_insert_line_position(x, rest);
        let t = insert_line(x, rest);
        lemma_lex_le_total(x, s[0]);
        assert forall|k: int| 0 <= k < t.len() implies lex_le(s[0], #[trigger] t[k]) by {
            if k < q {
                assert(t[k] == rest[k]);
                assert(rest[k] == s[k + 1]);
            } else if k == q {
                assert(t[k] == x);
            } else {
                assert(t[k] == rest[k - 1]);
                assert(rest[k - 1] == s[k]);
            }
        }
        assert forall|i: int, j: int| 0 <= i < j < r.len() implies lex_le(#[trigger] r[i], #[trigger] r[j]) by {
            if i == 0 {
                assert(r[j] == t[j - 1]);
            } else {
                assert(r[i] == t[i - 1] && r[j] == t[j - 1]);
            }
        }
    }
}

/// Sorting the import lines puts them in lexicographic order and keeps
/// exactly the lines there were, each as often as it occurred.
pub proof fn lemma_sort_lines(s: Seq<Seq<char>>)
    ensures
        lines_sorted(sort_lines(s)),
        sort_lines(s).to_multiset() == s.to_multiset(),
    decreases s.len(),
{
    broadcast use vstd::seq_lib::to_multiset_insert, vstd::seq_lib::to_multiset_build;

    if s.len() == 0 {
        assert(s =~= Seq::<Seq<char>>::empty());
        assert(sort_lines(s) =~= Seq::<Seq<char>>::empty());
    } else {
        let front = s.drop_last();
        lemma_sort_lines(front);
        lemma_insert_line_sorted(s.last(), sort_lines(front));
        let p = lemma_insert_line_position(s.last(), sort_lines(front));
        assert(s =~= front.push(s.last()));
        assert(sort_lines(front).insert(p, s.last()).to_multiset() == sort_lines(front).to_multiset().insert(
            s.last(),
        ));
        assert(front.push(s.last()).to_multiset() == front.to_multiset().insert(s.last()));
    }
}

} // verus!
