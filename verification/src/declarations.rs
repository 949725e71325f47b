//! Line-level finishing of declarations: modifier order after `sealed`,
//! wrapping of long multi-variable declarations, and the blank line before a
//! member's javadoc.
use vstd::prelude::*;
use crate::lexer::{char_is_whitespace, is_whitespace};
use crate::text::{
    contains, ends_with_char, leading_ws, lemma_leading_ws, lemma_trailing_ws, lines_of, push_chars,
    seq_contains, seq_ends_with, spec_trim_start, trailing_ws,
    seq_starts_with, spec_lines, spec_trim, spec_trim_end, starts_with, trim_chars,
    trim_end_chars, vec_of,
};

verus! {

/// `s` with every occurrence of `from`, left to right and without overlap,
/// replaced by `to` (`str::replace`).
pub open spec fn replace_all(s: Seq<char>, from: Seq<char>, to: Seq<char>) -> Seq<char>
    decreases s.len(),
{
    if from.len() == 0 || s.len() < from.len() {
        s
    } else if s.subrange(0, from.len() as int) == from {
        to + replace_all(s.subrange(from.len() as int, s.len() as int), from, to)
    } else {
        seq![s[0]] + replace_all(s.drop_first(), from, to)
    }
}

/// Replaces every occurrence of `from` by `to`.
pub fn replace_chars(s: &[char], from: &str, to: &str) -> (r: Vec<char>)
    requires
        from@.len() > 0,
    ensures
        r@ == replace_all(s@, from@, to@),
{
    let f = vec_of(from);
    let t = vec_of(to);
    let n = f.len();
    let mut out: Vec<char> = Vec::new();
    let mut i: usize = 0;
    assert(s@.subrange(0, s@.len() as int) =~= s@);
    while i < s.len()
        invariant
            i <= s@.len(),
            n == f@.len(),
            f@ == from@,
            t@ == to@,
            n > 0,
            out@ + replace_all(s@.subrange(i as int, s@.len() as int), f@, t@) == replace_all(
                s@,
                f@,
                t@,
            ),
        decreases s@.len() - i,
    {
        let ghost rest = s@.subrange(i as int, s@.len() as int);
        if s.len() - i < n {
            assert(replace_all(rest, f@, t@) == rest);
            let ghost before = out@;
            push_chars(&mut out, &crate::text::sub_chars(s, i, s.len()));
            i = s.len();
            assert(s@.subrange(i as int, s@.len() as int) =~= Seq::<char>::empty());
            assert(out@ + replace_all(Seq::<char>::empty(), f@, t@) =~= before + rest);
        } else {
            let mut matched = true;
            let mut k: usize = 0;
            let slen = s.len();
            assert(s@.subrange(i as int, i as int) =~= f@.subrange(0, 0));
            while k < n
                invariant
                    k <= n,
                    slen == s@.len(),
                    i + n <= s@.len(),
                    n == f@.len(),
                    matched == (s@.subrange(i as int, i + k) == f@.subrange(0, k as int)),
                decreases n - k,
            {
                if s[i + k] != f[k] {
                    matched = false;
                }
                proof {
                    if matched {
                        assert(s@.subrange(i as int, i + k + 1) =~= s@.subrange(i as int, i + k).push(
                            s@[i + k],
                        ));
                        assert(f@.subrange(0, k + 1) =~= f@.subrange(0, k as int).push(f@[k as int]));
                    } else {
                        if s@.subrange(i as int, i + k + 1) == f@.subrange(0, k + 1) {
                            if s@[i + k] != f@[k as int] {
                                assert(s@.subrange(i as int, i + k + 1)[k as int] == s@[i + k]);
                            } else {
                                assert(s@.subrange(i as int, i + k) =~= s@.subrange(
                                    i as int,
                                    i + k + 1,
                                ).subrange(0, k as int));
                                assert(f@.subrange(0, k as int) =~= f@.subrange(0, k + 1).subrange(
                                    0,
                                    k as int,
                                ));
                            }
                        }
                    }
                }
                k = k + 1;
            }
            assert(f@.subrange(0, n as int) =~= f@);
            assert(rest.subrange(0, n as int) =~= s@.subrange(i as int, i + n));
            if matched {
                assert(rest.subrange(n as int, rest.len() as int) =~= s@.subrange(
                    i + n,
                    s@.len() as int,
                ));
                let ghost tail = replace_all(s@.subrange(i + n, s@.len() as int), f@, t@);
                assert(out@ + (t@ + tail) =~= (out@ + t@) + tail);
                push_chars(&mut out, &t);
                i = i + n;
            } else {
                assert(rest.drop_first() =~= s@.subrange(i + 1, s@.len() as int));
                let ghost tail = replace_all(s@.subrange(i + 1, s@.len() as int), f@, t@);
                assert(out@ + (seq![s@[i as int]] + tail) =~= out@.push(s@[i as int]) + tail);
                out.push(s[i]);
                i = i + 1;
            }
        }
    }
    assert(s@.subrange(i as int, s@.len() as int) =~= Seq::<char>::empty());
    assert(out@ + Seq::<char>::empty() =~= out@);
    out
}

/// The line with an access modifier moved before `sealed` or `non-sealed`.
pub open spec fn modifier_order_fixed(line: Seq<char>) -> Seq<char> {
    let a = replace_all(line, "non-sealed private "@, "private non-sealed "@);
    let b = replace_all(a, "non-sealed protected "@, "protected non-sealed "@);
    let c = replace_all(b, "non-sealed public "@, "public non-sealed "@);
    let d = replace_all(c, "sealed private "@, "private sealed "@);
    let e = replace_all(d, "sealed protected "@, "protected sealed "@);
    replace_all(e, "sealed public "@, "public sealed "@)
}

/// Puts an access modifier before `sealed` and `non-sealed`.
pub fn normalize_modifier_order(line: &[char]) -> (r: Vec<char>)
    ensures
        r@ == modifier_order_fixed(line@),
{
    proof {
        reveal_strlit("non-sealed private ");
        reveal_strlit("non-sealed protected ");
        reveal_strlit("non-sealed public ");
        reveal_strlit("sealed private ");
        reveal_strlit("sealed protected ");
        reveal_strlit("sealed public ");
    }
    let a = replace_chars(line, "non-sealed private ", "private non-sealed ");
    let b = replace_chars(&a, "non-sealed protected ", "protected non-sealed ");
    let c = replace_chars(&b, "non-sealed public ", "public non-sealed ");
    let d = replace_chars(&c, "sealed private ", "private sealed ");
    let e = replace_chars(&d, "sealed protected ", "protected sealed ");
    replace_chars(&e, "sealed public ", "public sealed ")
}

/// `w` stands in `t` as a whole whitespace-separated word.
pub open spec fn has_word(t: Seq<char>, w: Seq<char>) -> bool {
    exists|i: int| #[trigger] word_at(t, w, i)
}

/// `w` stands in `t` at `i`, with whitespace or an end on either side.
pub open spec fn word_at(t: Seq<char>, w: Seq<char>, i: int) -> bool {
    &&& 0 <= i
    &&& i + w.len() <= t.len()
    &&& t.subrange(i, i + w.len()) == w
    &&& (i == 0 || char_is_whitespace(t[i - 1]))
    &&& (i + w.len() == t.len() || char_is_whitespace(t[i + w.len()]))
}

/// Whether `w` stands in `t` as a whole word.
pub fn contains_word(t: &[char], w: &str) -> (r: bool)
    requires
        w@.len() > 0,
    ensures
        r == has_word(t@, w@),
{
    let wv = vec_of(w);
    let n = wv.len();
    let mut i: usize = 0;
    while i < t.len()
        invariant
            i <= t@.len(),
            n == w@.len(),
            wv@ == w@,
            forall|j: int| 0 <= j < i ==> !(#[trigger] word_at(t@, w@, j)),
        decreases t@.len() - i,
    {
        if (i == 0 || is_whitespace(t[i - 1])) && t.len() - i >= n {
            let after = i + n;
            if after == t.len() || is_whitespace(t[after]) {
                let mut k: usize = 0;
                let mut same = true;
                let tlen = t.len();
                while k < n
                    invariant
                        k <= n,
                        tlen == t@.len(),
                        i + n <= t@.len(),
                        n == wv@.len(),
                        same == forall|m: int| 0 <= m < k ==> t@[i + m] == wv@[m],
                    decreases n - k,
                {
                    if t[i + k] != wv[k] {
                        same = false;
                    }
                    k = k + 1;
                }
                if same {
                    assert(t@.subrange(i as int, i + n) =~= w@);
                    assert(word_at(t@, w@, i as int));
                    return true;
                } else {
                    assert(!word_at(t@, w@, i as int)) by {
                        if t@.subrange(i as int, i + n) == w@ {
                            assert forall|m: int| 0 <= m < n implies t@[i + m] == wv@[m] by {
                                assert(t@.subrange(i as int, i + n)[m] == t@[i + m]);
                            }
                        }
                    }
                }
            }
        }
        i = i + 1;
    }
    false
}

/// `s` without the `{` characters at its end.
pub open spec fn trim_end_braces(s: Seq<char>) -> Seq<char>
    decreases s.len(),
{
    if s.len() > 0 && s.last() == '{' {
        trim_end_braces(s.drop_last())
    } else {
        s
    }
}

/// The line opens a type declaration: it holds `@interface`, or one of
/// `class`, `interface`, `enum`, `record` as a word, once trimmed and without
/// its trailing `{`.
pub open spec fn is_type_header(line: Seq<char>) -> bool {
    let t = spec_trim_end(trim_end_braces(spec_trim(line)));
    seq_contains(t, "@interface"@) || has_word(t, "class"@) || has_word(t, "interface"@)
        || has_word(t, "enum"@) || has_word(t, "record"@)
}

/// Whether the line opens a type declaration.
pub fn is_type_declaration_header_line(line: &[char]) -> (r: bool)
    ensures
        r == is_type_header(line@),
{
    proof {
        reveal_strlit("class");
        reveal_strlit("interface");
        reveal_strlit("enum");
        reveal_strlit("record");
    }
    let mut t = trim_chars(line);
    let ghost full = t@;
    while t.len() > 0 && t[t.len() - 1] == '{'
        invariant
            trim_end_braces(t@) == trim_end_braces(full),
        decreases t@.len(),
    {
        t.pop();
    }
    let t = trim_end_chars(&t);
    contains(&t, "@interface") || contains_word(&t, "class") || contains_word(&t, "interface")
        || contains_word(&t, "enum") || contains_word(&t, "record")
}

/// Trimming a trimmed text leaves it as it is.
pub proof fn lemma_trim_twice(s: Seq<char>)
    ensures
        spec_trim(spec_trim(s)) == spec_trim(s),
{
    let a = spec_trim_start(s);
    lemma_leading_ws(s);
    lemma_trailing_ws(a);
    let u = spec_trim(s);
    assert(u == a.subrange(0, a.len() - trailing_ws(a)));
    if u.len() > 0 {
        assert(u[0] == a[0]);
        assert(a[0] == s[leading_ws(s) as int]);
        assert(!char_is_whitespace(u[0]));
        assert(u.last() == a[a.len() - trailing_ws(a) - 1]);
        assert(leading_ws(u) == 0);
        assert(spec_trim_start(u) =~= u);
        assert(trailing_ws(u) == 0);
        assert(spec_trim_end(u) =~= u);
    } else {
        assert(spec_trim_start(u) =~= u);
        assert(spec_trim_end(u) =~= u);
    }
}

/// A line that opens a block and holds `class`, `interface`, `enum` or
/// `record` as a word before the block's `{` opens a type declaration: it
/// ends no member, so no blank line goes between it and a javadoc after it.
pub proof fn law_type_keyword_line_ends_no_member(line: Seq<char>, kw: Seq<char>, i: int)
    requires
        kw == "class"@ || kw == "interface"@ || kw == "enum"@ || kw == "record"@,
        seq_ends_with(spec_trim(line), "{"@),
        word_at(spec_trim_end(trim_end_braces(spec_trim(line))), kw, i),
    ensures
        is_type_header(line),
        !ends_member(line),
{
    reveal_strlit("{");
    reveal_strlit(";");
    reveal_strlit("}");
    lemma_trim_twice(line);
    let t = spec_trim(line);
    let u = spec_trim_end(trim_end_braces(t));
    assert(word_at(u, kw, i));
    assert(has_word(u, kw));
    assert("{"@.len() == 1 && "{"@[0] == '{');
    assert(t.subrange(t.len() - 1, t.len() as int)[0] == t[t.len() - 1]);
    assert(t.last() == '{');
    assert(!seq_ends_with(t, ";"@)) by {
        if seq_ends_with(t, ";"@) {
            assert(t.subrange(t.len() - 1, t.len() as int)[0] == t.last());
        }
    }
    assert(!seq_ends_with(t, "}"@)) by {
        if seq_ends_with(t, "}"@) {
            assert(t.subrange(t.len() - 1, t.len() as int)[0] == t.last());
        }
    }
    assert(spec_trim(t) == t);
    assert(is_type_header(t));
}

/// A line that opens a block and holds `@interface` before the block's `{`
/// opens an annotation type declaration: it ends no member.
pub proof fn law_annotation_type_line_ends_no_member(line: Seq<char>, i: int)
    requires
        seq_ends_with(spec_trim(line), "{"@),
        crate::text::occurs_at(spec_trim_end(trim_end_braces(spec_trim(line))), "@interface"@, i),
    ensures
        is_type_header(line),
        !ends_member(line),
{
    reveal_strlit("{");
    reveal_strlit(";");
    reveal_strlit("}");
    lemma_trim_twice(line);
    let t = spec_trim(line);
    let u = spec_trim_end(trim_end_braces(t));
    assert(seq_contains(u, "@interface"@));
    assert("{"@.len() == 1 && "{"@[0] == '{');
    assert(t.subrange(t.len() - 1, t.len() as int)[0] == t[t.len() - 1]);
    assert(t.last() == '{');
    assert(!seq_ends_with(t, ";"@)) by {
        if seq_ends_with(t, ";"@) {
            assert(t.subrange(t.len() - 1, t.len() as int)[0] == t.last());
        }
    }
    assert(!seq_ends_with(t, "}"@)) by {
        if seq_ends_with(t, "}"@) {
            assert(t.subrange(t.len() - 1, t.len() as int)[0] == t.last());
        }
    }
    assert(spec_trim(t) == t);
    assert(is_type_header(t));
}

/// The trimmed line starts a javadoc.
pub open spec fn starts_javadoc(trimmed: Seq<char>) -> bool {
    seq_starts_with(trimmed, "/**"@)
}

/// Whether the trimmed line starts a javadoc.
pub fn starts_member_javadoc(trimmed_line: &[char]) -> (r: bool)
    ensures
        r == starts_javadoc(trimmed_line@),
{
    starts_with(trimmed_line, "/**")
}

/// The line ends a member: once trimmed it ends with `;` or `}`, or with `{`
/// without opening a type declaration.
pub open spec fn ends_member(line: Seq<char>) -> bool {
    let t = spec_trim(line);
    seq_ends_with(t, ";"@) || seq_ends_with(t, "}"@) || (seq_ends_with(t, "{"@) && !is_type_header(
        t,
    ))
}

/// Whether the previous line, if there is one, ends a member.
pub fn ends_member_declaration(previous_line: &Option<Vec<char>>) -> (r: bool)
    ensures
        r == match previous_line {
            Some(line) => ends_member(line@),
            None => false,
        },
{
    match previous_line {
        Some(line) => {
            let t = trim_chars(line);
            crate::text::ends_with(&t, ";") || crate::text::ends_with(&t, "}") || (
            crate::text::ends_with(&t, "{") && !is_type_declaration_header_line(&t))
        },
        None => false,
    }
}

/// The last of `lines` that holds something other than whitespace.
pub open spec fn last_nonblank(lines: Seq<Seq<char>>) -> Option<Seq<char>>
    decreases lines.len(),
{
    if lines.len() == 0 {
        None
    } else if spec_trim(lines.last()).len() > 0 {
        Some(lines.last())
    } else {
        last_nonblank(lines.drop_last())
    }
}

/// The last line of the text that holds something other than whitespace.
pub fn previous_nonempty_line(text: &[char]) -> (r: Option<Vec<char>>)
    ensures
        match r {
            Some(line) => last_nonblank(spec_lines(text@)) == Some(line@),
            None => last_nonblank(spec_lines(text@)) is None,
        },
{
    let lines = lines_of(text);
    let ghost all = spec_lines(text@);
    let mut k = lines.len();
    assert(all.subrange(0, k as int) =~= all);
    while k > 0
        invariant
            all == spec_lines(text@),
            k <= lines@.len(),
            lines@.len() == all.len(),
            forall|j: int| 0 <= j < lines@.len() ==> (#[trigger] lines@[j])@ == all[j],
            last_nonblank(all) == last_nonblank(all.subrange(0, k as int)),
        decreases k,
    {
        let t = trim_chars(&lines[k - 1]);
        let ghost pre = all.subrange(0, k as int);
        assert(pre.last() == all[k - 1]);
        if t.len() > 0 {
            assert(last_nonblank(pre) == Some(pre.last()));
            let found = crate::text::copy_chars(&lines[k - 1]);
            assert(lines@[k - 1]@ == all[k - 1]);
            assert(found@ == all[k - 1]);
            return Some(found);
        }
        assert(pre.drop_last() =~= all.subrange(0, k - 1));
        k = k - 1;
    }
    assert(all.subrange(0, 0) =~= Seq::<Seq<char>>::empty());
    None
}


/// The positions of the commas of `line` from `i` on that stand outside
/// angle and square brackets, given the bracket depths before `i`.
pub open spec fn top_level_commas(line: Seq<char>, i: int, angle: nat, bracket: nat) -> Seq<int>
    decreases line.len() - i,
{
    if i < 0 || i >= line.len() {
        Seq::empty()
    } else {
        let c = line[i];
        if c == '<' {
            top_level_commas(line, i + 1, angle + 1, bracket)
        } else if c == '>' {
            top_level_commas(line, i + 1, if angle > 0 { (angle - 1) as nat } else { 0 }, bracket)
        } else if c == '[' {
            top_level_commas(line, i + 1, angle, bracket + 1)
        } else if c == ']' {
            top_level_commas(line, i + 1, angle, if bracket > 0 { (bracket - 1) as nat } else { 0 })
        } else if c == ',' && angle == 0 && bracket == 0 {
            seq![i] + top_level_commas(line, i + 1, angle, bracket)
        } else {
            top_level_commas(line, i + 1, angle, bracket)
        }
    }
}

/// The commas of the line that separate declarators.
pub open spec fn declarator_commas(line: Seq<char>) -> Seq<int> {
    top_level_commas(line, 0, 0, 0)
}

/// The line is no multi-variable declaration to wrap: it is shorter than
/// 100 characters, does not end with `;`, holds a comment, an initializer,
/// a lambda, a ternary, a label, parentheses or braces, or has no comma
/// outside brackets.
pub open spec fn wrap_rejected(line: Seq<char>) -> bool {
    ||| line.len() < 100
    ||| !seq_ends_with(spec_trim_end(line), ";"@)
    ||| seq_contains(line, "//"@)
    ||| seq_contains(line, "/*"@)
    ||| line.contains('=')
    ||| seq_contains(line, "->"@)
    ||| line.contains('?')
    ||| line.contains(':')
    ||| line.contains('(')
    ||| line.contains(')')
    ||| line.contains('{')
    ||| line.contains('}')
    ||| declarator_commas(line).len() == 0
}

/// The number of bytes of the UTF-8 encoding of `c`.
pub open spec fn utf8_len(c: char) -> nat {
    if (c as u32) < 0x80 {
        1
    } else if (c as u32) < 0x800 {
        2
    } else if (c as u32) < 0x10000 {
        3
    } else {
        4
    }
}

/// The number of bytes of the UTF-8 encoding of `s`.
pub open spec fn utf8_width(s: Seq<char>) -> nat
    decreases s.len(),
{
    if s.len() == 0 {
        0
    } else {
        utf8_len(s.last()) + utf8_width(s.drop_last())
    }
}

/// The indentation of the continuation lines: four more spaces than the
/// line's own indentation counts bytes.
pub open spec fn continuation_indent(line: Seq<char>) -> Seq<char> {
    crate::text::spaces(utf8_width(line.subrange(0, crate::text::leading_ws(line) as int)) + 4)
}

/// The segments of `line` from comma `k` on, starting at `start`: the first
/// ends its line trimmed at the end, the others trimmed and indented by
/// `ind`, and the rest after the last comma on a line of its own.
pub open spec fn wrapped_from(
    line: Seq<char>,
    commas: Seq<int>,
    k: int,
    start: int,
    ind: Seq<char>,
) -> Seq<char>
    decreases commas.len() - k,
{
    if k < 0 || k >= commas.len() {
        ind + spec_trim(line.subrange(start, line.len() as int))
    } else {
        let end = commas[k] + 1;
        let seg = line.subrange(start, end);
        (if k == 0 {
            spec_trim_end(seg)
        } else {
            ind + spec_trim(seg)
        }) + seq!['\n'] + wrapped_from(line, commas, k + 1, end, ind)
    }
}

/// The declaration with one declarator per line.
pub open spec fn wrapped_declaration(line: Seq<char>) -> Seq<char> {
    wrapped_from(line, declarator_commas(line), 0, 0, continuation_indent(line))
}

proof fn lemma_commas_ordered(line: Seq<char>, i: int, angle: nat, bracket: nat)
    requires
        0 <= i,
    ensures
        forall|k: int|
            0 <= k < top_level_commas(line, i, angle, bracket).len() ==> i <= #[trigger] top_level_commas(
                line,
                i,
                angle,
                bracket,
            )[k] < line.len(),
        forall|j: int, k: int|
            0 <= j < k < top_level_commas(line, i, angle, bracket).len() ==> #[trigger] top_level_commas(
                line,
                i,
                angle,
                bracket,
            )[j] < #[trigger] top_level_commas(line, i, angle, bracket)[k],
    decreases line.len() - i,
{
    if i < line.len() {
        let c = line[i];
        let na: nat = if c == '<' {
            angle + 1
        } else if c == '>' {
            if angle > 0 {
                (angle - 1) as nat
            } else {
                0
            }
        } else {
            angle
        };
        let nb: nat = if c == '[' {
            bracket + 1
        } else if c == ']' {
            if bracket > 0 {
                (bracket - 1) as nat
            } else {
                0
            }
        } else {
            bracket
        };
        lemma_commas_ordered(line, i + 1, na, nb);
        let rest = top_level_commas(line, i + 1, na, nb);
        if c == ',' && angle == 0 && bracket == 0 {
            let all = seq![i] + rest;
            assert(top_level_commas(line, i, angle, bracket) == all);
            assert forall|k: int| 0 <= k < all.len() implies i <= #[trigger] all[k] < line.len() by {
                if k > 0 {
                    assert(all[k] == rest[k - 1]);
                }
            }
            assert forall|j: int, k: int| 0 <= j < k < all.len() implies #[trigger] all[j]
                < #[trigger] all[k] by {
                assert(all[k] == rest[k - 1]);
                if j > 0 {
                    assert(all[j] == rest[j - 1]);
                }
            }
        } else {
            assert(top_level_commas(line, i, angle, bracket) == rest);
        }
    }
}

/// The UTF-8 width of the line's leading whitespace.
fn leading_ws_width(line: &[char]) -> (r: usize)
    requires
        line@.len() <= usize::MAX / 4,
    ensures
        r == utf8_width(line@.subrange(0, crate::text::leading_ws(line@) as int)),
        r <= 4 * line@.len(),
{
    let trimmed = crate::text::trim_start_chars(line);
    proof {
        crate::text::lemma_leading_ws(line@);
    }
    let n = line.len() - trimmed.len();
    let mut w: usize = 0;
    let mut k: usize = 0;
    assert(line@.subrange(0, 0) =~= Seq::<char>::empty());
    while k < n
        invariant
            n == crate::text::leading_ws(line@),
            n <= line@.len(),
            line@.len() <= usize::MAX / 4,
            k <= n,
            w == utf8_width(line@.subrange(0, k as int)),
            w <= 4 * k,
        decreases n - k,
    {
        let c = line[k];
        let code = c as u32;
        let add: usize = if code < 0x80 {
            1
        } else if code < 0x800 {
            2
        } else if code < 0x10000 {
            3
        } else {
            4
        };
        assert(line@.subrange(0, k + 1).drop_last() =~= line@.subrange(0, k as int));
        w = w + add;
        k = k + 1;
    }
    w
}

/// Breaks a long declaration of several variables after each declarator,
/// or returns `None` when the line is no such declaration.
pub fn wrap_multivariable_declaration_line(line: &[char]) -> (r: Option<Vec<char>>)
    requires
        line@.len() <= usize::MAX / 8,
    ensures
        r is None <==> wrap_rejected(line@),
        r matches Some(w) ==> w@ == wrapped_declaration(line@),
{
    let ends_semicolon = crate::text::ends_with(&trim_end_chars(line), ";");
    if line.len() < 100 || !ends_semicolon || contains(line, "//") || contains(line, "/*")
        || crate::text::contains_char(line, '=') || contains(line, "->")
        || crate::text::contains_char(line, '?') || crate::text::contains_char(line, ':')
        || crate::text::contains_char(line, '(') || crate::text::contains_char(line, ')')
        || crate::text::contains_char(line, '{') || crate::text::contains_char(line, '}') {
        return None;
    }
    let mut angle: usize = 0;
    let mut bracket: usize = 0;
    let mut commas: Vec<usize> = Vec::new();
    let mut i: usize = 0;
    while i < line.len()
        invariant
            i <= line@.len(),
            angle <= i,
            bracket <= i,
            commas@.map_values(|x: usize| x as int) + top_level_commas(
                line@,
                i as int,
                angle as nat,
                bracket as nat,
            ) == declarator_commas(line@),
        decreases line@.len() - i,
    {
        let c = line[i];
        let ghost before = commas@.map_values(|x: usize| x as int);
        if c == '<' {
            angle = angle + 1;
        } else if c == '>' {
            angle = if angle > 0 {
                angle - 1
            } else {
                0
            };
        } else if c == '[' {
            bracket = bracket + 1;
        } else if c == ']' {
            bracket = if bracket > 0 {
                bracket - 1
            } else {
                0
            };
        } else if c == ',' && angle == 0 && bracket == 0 {
            commas.push(i);
            assert(commas@.map_values(|x: usize| x as int) =~= before.push(i as int));
            let ghost rest = top_level_commas(line@, i + 1, 0, 0);
            assert(before + (seq![i as int] + rest) =~= before.push(i as int) + rest);
        }
        i = i + 1;
    }
    let ghost cs = declarator_commas(line@);
    assert(commas@.map_values(|x: usize| x as int) =~= cs);
    if commas.len() == 0 {
        return None;
    }
    proof {
        lemma_commas_ordered(line@, 0, 0, 0);
    }
    let width = leading_ws_width(line);
    let mut ind: Vec<char> = Vec::new();
    crate::text::push_spaces(&mut ind, width + 4);
    let ghost indent = continuation_indent(line@);
    assert(ind@ =~= indent);
    let mut out: Vec<char> = Vec::new();
    let mut start: usize = 0;
    let mut k: usize = 0;
    while k < commas.len()
        invariant
            line@.len() <= usize::MAX / 8,
            ind@ == indent,
            indent == continuation_indent(line@),
            cs == declarator_commas(line@),
            commas@.len() == cs.len(),
            forall|j: int| 0 <= j < cs.len() ==> (#[trigger] commas@[j]) as int == cs[j],
            forall|j: int| 0 <= j < cs.len() ==> 0 <= #[trigger] cs[j] < line@.len(),
            forall|j: int, m: int| 0 <= j < m < cs.len() ==> #[trigger] cs[j] < #[trigger] cs[m],
            k <= cs.len(),
            k == 0 ==> start == 0,
            k > 0 ==> start == cs[k - 1] + 1,
            start <= line@.len(),
            out@ + wrapped_from(line@, cs, k as int, start as int, indent) == wrapped_declaration(
                line@,
            ),
        decreases cs.len() - k,
    {
        let end = commas[k] + 1;
        assert(commas@[k as int] as int == cs[k as int]);
        if k > 0 {
            assert(cs[k - 1] < cs[k as int]);
        }
        let seg = crate::text::sub_chars(line, start, end);
        let piece = if k == 0 {
            trim_end_chars(&seg)
        } else {
            let mut p = crate::text::copy_chars(&ind);
            push_chars(&mut p, &trim_chars(&seg));
            p
        };
        let ghost rest = wrapped_from(line@, cs, k + 1, end as int, indent);
        assert(out@ + (piece@ + seq!['\n'] + rest) =~= (out@ + piece@).push('\n') + rest);
        push_chars(&mut out, &piece);
        out.push('\n');
        start = end;
        k = k + 1;
    }
    let tail = crate::text::sub_chars(line, start, line.len());
    push_chars(&mut out, &ind);
    push_chars(&mut out, &trim_chars(&tail));
    assert(out@ =~= wrapped_declaration(line@));
    Some(out)
}


/// Replacing by a text of the same length keeps the length.
proof fn lemma_replace_keeps_len(s: Seq<char>, from: Seq<char>, to: Seq<char>)
    requires
        from.len() == to.len(),
    ensures
        replace_all(s, from, to).len() == s.len(),
    decreases s.len(),
{
    if from.len() == 0 || s.len() < from.len() {
    } else if s.subrange(0, from.len() as int) == from {
        lemma_replace_keeps_len(s.subrange(from.len() as int, s.len() as int), from, to);
    } else {
        lemma_replace_keeps_len(s.drop_first(), from, to);
    }
}

/// Reordering modifiers keeps the line's length.
proof fn lemma_modifier_order_keeps_len(line: Seq<char>)
    ensures
        modifier_order_fixed(line).len() == line.len(),
{
    reveal_strlit("non-sealed private ");
    reveal_strlit("private non-sealed ");
    reveal_strlit("non-sealed protected ");
    reveal_strlit("protected non-sealed ");
    reveal_strlit("non-sealed public ");
    reveal_strlit("public non-sealed ");
    reveal_strlit("sealed private ");
    reveal_strlit("private sealed ");
    reveal_strlit("sealed protected ");
    reveal_strlit("protected sealed ");
    reveal_strlit("sealed public ");
    reveal_strlit("public sealed ");
    let a = replace_all(line, "non-sealed private "@, "private non-sealed "@);
    let b = replace_all(a, "non-sealed protected "@, "protected non-sealed "@);
    let c = replace_all(b, "non-sealed public "@, "public non-sealed "@);
    let d = replace_all(c, "sealed private "@, "private sealed "@);
    let e = replace_all(d, "sealed protected "@, "protected sealed "@);
    lemma_replace_keeps_len(line, "non-sealed private "@, "private non-sealed "@);
    lemma_replace_keeps_len(a, "non-sealed protected "@, "protected non-sealed "@);
    lemma_replace_keeps_len(b, "non-sealed public "@, "public non-sealed "@);
    lemma_replace_keeps_len(c, "sealed private "@, "private sealed "@);
    lemma_replace_keeps_len(d, "sealed protected "@, "protected sealed "@);
    lemma_replace_keeps_len(e, "sealed public "@, "public sealed "@);
}

/// The line as it is written out: modifiers reordered, and wrapped when it
/// is a long multi-variable declaration.
pub open spec fn fixed_line(raw: Seq<char>) -> Seq<char> {
    let m = modifier_order_fixed(raw);
    if wrap_rejected(m) {
        m
    } else {
        wrapped_declaration(m)
    }
}

/// Appends one output line: a `}` line does not follow a blank line, and a
/// member's javadoc is separated by a blank line from a member before it.
pub open spec fn push_segment(out: Seq<char>, segment: Seq<char>) -> Seq<char> {
    let trimmed = spec_trim(segment);
    let out1 = if trimmed == "}"@ && seq_ends_with(out, "\n\n"@) {
        out.drop_last()
    } else {
        out
    };
    let blank = starts_javadoc(trimmed) && match last_nonblank(spec_lines(out1)) {
        Some(l) => ends_member(l),
        None => false,
    };
    let out2 = if blank && out1.len() > 0 && !seq_ends_with(out1, "\n\n"@) {
        out1.push('\n')
    } else {
        out1
    };
    out2 + segment + seq!['\n']
}

/// Appends the lines `segs` one by one.
pub open spec fn push_segments(out: Seq<char>, segs: Seq<Seq<char>>) -> Seq<char>
    decreases segs.len(),
{
    if segs.len() == 0 {
        out
    } else {
        push_segments(push_segment(out, segs[0]), segs.drop_first())
    }
}

/// Appends one input line: an empty line makes a blank line, any other is
/// written out fixed.
pub open spec fn push_line(out: Seq<char>, raw: Seq<char>) -> Seq<char> {
    if raw.len() == 0 {
        (if out.len() > 0 && out.last() == '\n' {
            out
        } else {
            out.push('\n')
        }).push('\n')
    } else {
        push_segments(out, spec_lines(fixed_line(raw)))
    }
}

/// Appends the input lines one by one.
pub open spec fn push_lines(out: Seq<char>, lines: Seq<Seq<char>>) -> Seq<char>
    decreases lines.len(),
{
    if lines.len() == 0 {
        out
    } else {
        push_lines(push_line(out, lines[0]), lines.drop_first())
    }
}

/// The finished text.
pub open spec fn finalized(text: Seq<char>) -> Seq<char> {
    push_lines(Seq::empty(), spec_lines(text))
}

/// Appends one output line to `out`.
fn push_segment_exec(out: &mut Vec<char>, segment: &[char])
    ensures
        final(out)@ == push_segment(old(out)@, segment@),
{
    proof {
        reveal_strlit("}");
        reveal_strlit("\n\n");
    }
    let trimmed = trim_chars(segment);
    if crate::text::text_is(&trimmed, "}") && crate::text::ends_with(out, "\n\n") {
        out.pop();
    }
    let blank = starts_member_javadoc(&trimmed) && ends_member_declaration(
        &previous_nonempty_line(out),
    );
    if blank && out.len() > 0 && !crate::text::ends_with(out, "\n\n") {
        out.push('\n');
    }
    push_chars(out, segment);
    out.push('\n');
}

/// Fixes the declarations of a printed text line by line: access modifiers
/// before `sealed`, long multi-variable declarations one declarator per
/// line, a blank line before a member's javadoc, no blank line before a
/// closing `}`. The bound on the text's length leaves room for the lines
/// it rewrites (a declaration split into several lines repeats its type and
/// indentation), so every length it computes fits in `usize`.
pub fn finalize_declarations_chars(text: &[char]) -> (r: Vec<char>)
    requires
        text@.len() <= usize::MAX / 8,
    ensures
        r@ == finalized(text@),
{
    let lines = lines_of(text);
    let ghost all = spec_lines(text@);
    proof {
        crate::text::lemma_lines_short(text@);
    }
    let mut out: Vec<char> = Vec::new();
    let mut i: usize = 0;
    assert(all.subrange(0, all.len() as int) =~= all);
    while i < lines.len()
        invariant
            all == spec_lines(text@),
            lines@.len() == all.len(),
            forall|j: int| 0 <= j < all.len() ==> (#[trigger] lines@[j])@ == all[j],
            forall|j: int| 0 <= j < all.len() ==> (#[trigger] all[j]).len() <= text@.len(),
            text@.len() <= usize::MAX / 8,
            i <= all.len(),
            push_lines(out@, all.subrange(i as int, all.len() as int)) == finalized(text@),
        decreases all.len() - i,
    {
        let ghost rest = all.subrange(i as int, all.len() as int);
        assert(rest.drop_first() =~= all.subrange(i + 1, all.len() as int));
        assert(rest[0] == all[i as int]);
        let raw = &lines[i];
        assert(raw@ == all[i as int]);
        if raw.len() == 0 {
            proof {
                reveal_strlit("\n");
            }
            if !ends_with_char(&out, '\n') {
                out.push('\n');
            }
            out.push('\n');
        } else {
            let m = normalize_modifier_order(raw);
            proof {
                lemma_modifier_order_keeps_len(raw@);
            }
            let line = match wrap_multivariable_declaration_line(&m) {
                Some(w) => w,
                None => m,
            };
            assert(line@ == fixed_line(all[i as int]));
            let segs = lines_of(&line);
            let ghost sv = spec_lines(line@);
            let ghost start_out = out@;
            let mut j: usize = 0;
            assert(sv.subrange(0, sv.len() as int) =~= sv);
            while j < segs.len()
                invariant
                    sv == spec_lines(line@),
                    segs@.len() == sv.len(),
                    forall|q: int| 0 <= q < sv.len() ==> (#[trigger] segs@[q])@ == sv[q],
                    j <= sv.len(),
                    sv == spec_lines(fixed_line(all[i as int])),
                    all[i as int].len() > 0,
                    push_segments(out@, sv.subrange(j as int, sv.len() as int)) == push_line(
                        start_out,
                        all[i as int],
                    ),
                decreases sv.len() - j,
            {
                let ghost srest = sv.subrange(j as int, sv.len() as int);
                assert(srest.drop_first() =~= sv.subrange(j + 1, sv.len() as int));
                assert(srest[0] == sv[j as int]);
                push_segment_exec(&mut out, &segs[j]);
                j = j + 1;
            }
            assert(sv.subrange(j as int, sv.len() as int) =~= Seq::<Seq<char>>::empty());
        }
        i = i + 1;
    }
    assert(all.subrange(i as int, all.len() as int) =~= Seq::<Seq<char>>::empty());
    out
}


/// Fixes the declarations of a printed text (see
/// `finalize_declarations_chars`).
pub fn finalize_declarations(text: &str) -> (r: String)
    requires
        text@.len() <= usize::MAX / 8,
    ensures
        r@ == finalized(text@),
{
    let chars = crate::text::chars_of(text);
    let done = finalize_declarations_chars(&chars);
    crate::text::string_of(&done)
}

} // verus!
