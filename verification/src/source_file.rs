//! The document of a whole file: a file of nothing but a package clause and
//! imports is built item by item; any other file goes through the token
//! printer and is kept line for line.
use vstd::prelude::*;
use crate::doc::{Doc, LineMode, all_hard, docs_indent_depth, indent_depth, is_hard};
use crate::emit::{emit, emitted, no_trailing_blank};
use crate::layout::{flat_text, flat_texts};
use crate::lexer::{Token, TokenKind};
use crate::printer::PrintedDoc;
use crate::printer::engine::{Snap, block_comments_keep_text, finished_output, printer_run};
use crate::printer::output::{no_triple_newline, visible};
use crate::declarations::finalized;
use crate::printer::toks::{Toks, meaningful, tokens_pieces, tokens_text};
use crate::syntax::{ParsedFile, TopLevelItem, TopLevelItemKind, tok_text};
use crate::text::{chars_of, push_chars, string_of, text_is};

verus! {

/// The indexes of the tokens in `start..end` that are neither whitespace nor
/// a newline.
pub open spec fn meaningful_in(toks: Seq<Token>, start: int, end: int) -> Seq<int>
    decreases end - start,
{
    if start >= end {
        Seq::empty()
    } else {
        let rest = meaningful_in(toks, start + 1, end);
        if toks[start].kind == TokenKind::Whitespace || toks[start].kind == TokenKind::Newline {
            rest
        } else {
            seq![start] + rest
        }
    }
}

/// The texts of the given tokens, one after the other.
pub open spec fn joined(src: Seq<char>, toks: Seq<Token>, idx: Seq<int>) -> Seq<char>
    decreases idx.len(),
{
    if idx.len() == 0 {
        Seq::empty()
    } else {
        joined(src, toks, idx.drop_last()) + tok_text(src, toks[idx.last()])
    }
}

/// The package clause written out: `package`, the joined name and `;`, or
/// `None` when the item is no such clause or has no name.
pub open spec fn package_text(src: Seq<char>, toks: Seq<Token>, start: int, end: int) -> Option<Seq<char>> {
    let m = meaningful_in(toks, start, end);
    if m.len() < 3 || tok_text(src, toks[m[0]]) != "package"@ || tok_text(src, toks[m.last()])
        != ";"@ {
        None
    } else {
        let path = joined(src, toks, m.subrange(1, m.len() - 1));
        if path.len() == 0 {
            None
        } else {
            Some("package "@ + path + ";"@)
        }
    }
}

/// The import written out: `import` (and `static`), the joined name and
/// `;`, or `None` when the item is no such import or has no name.
pub open spec fn import_text(src: Seq<char>, toks: Seq<Token>, start: int, end: int) -> Option<Seq<char>> {
    let m = meaningful_in(toks, start, end);
    if m.len() < 3 || tok_text(src, toks[m[0]]) != "import"@ || tok_text(src, toks[m.last()])
        != ";"@ {
        None
    } else {
        let is_static = tok_text(src, toks[m[1]]) == "static"@;
        let body = if is_static {
            2int
        } else {
            1int
        };
        let path = joined(src, toks, m.subrange(body, m.len() - 1));
        if path.len() == 0 {
            None
        } else {
            Some((if is_static {
                "import static "@
            } else {
                "import "@
            }) + path + ";"@)
        }
    }
}

/// The package clause and the imports of the items from `k` on, given those
/// of the items before; `None` when an item is neither, a second package
/// clause comes, or an item cannot be written out.
pub open spec fn collect_items(
    src: Seq<char>,
    toks: Seq<Token>,
    items: Seq<TopLevelItem>,
    k: int,
    package: Option<Seq<char>>,
    imports: Seq<Seq<char>>,
) -> Option<(Option<Seq<char>>, Seq<Seq<char>>)>
    decreases items.len() - k,
{
    if k < 0 || k >= items.len() {
        Some((package, imports))
    } else {
        let item = items[k];
        match item.kind {
            TopLevelItemKind::Package => if package is Some {
                None
            } else {
                match package_text(src, toks, item.start_token as int, item.end_token as int) {
                    Some(t) => collect_items(src, toks, items, k + 1, Some(t), imports),
                    None => None,
                }
            },
            TopLevelItemKind::Import => match import_text(
                src,
                toks,
                item.start_token as int,
                item.end_token as int,
            ) {
                Some(t) => collect_items(src, toks, items, k + 1, package, imports.push(t)),
                None => None,
            },
            _ => None,
        }
    }
}

/// The imports, each followed by a newline.
pub open spec fn import_lines(imports: Seq<Seq<char>>) -> Seq<char>
    decreases imports.len(),
{
    if imports.len() == 0 {
        Seq::empty()
    } else {
        import_lines(imports.drop_last()) + imports.last() + seq!['\n']
    }
}

/// The text of a file of nothing but a package clause and imports, from its
/// source, tokens, comment counts and outline: the clause, a blank line when
/// imports follow, and the imports one per line in their order; `None` for
/// any other file, or one with comments.
pub open spec fn package_import_text_of(
    src: Seq<char>,
    toks: Seq<Token>,
    line_comments: nat,
    block_comments: nat,
    items: Seq<TopLevelItem>,
) -> Option<Seq<char>> {
    if line_comments > 0 || block_comments > 0 || items.len() == 0 {
        None
    } else {
        match collect_items(src, toks, items, 0, None, Seq::empty()) {
            None => None,
            Some((package, imports)) => Some(
                match package {
                    Some(p) => p + (if imports.len() > 0 {
                        seq!['\n', '\n']
                    } else {
                        seq!['\n']
                    }),
                    None => Seq::empty(),
                } + import_lines(imports),
            ),
        }
    }
}

/// The text of a parsed file of nothing but a package clause and imports
/// (see `package_import_text_of`).
pub open spec fn package_import_text(parsed: ParsedFile) -> Option<Seq<char>> {
    package_import_text_of(
        parsed.cst.source@,
        parsed.cst.tokens@,
        parsed.comments.line_comment_count as nat,
        parsed.comments.block_comment_count as nat,
        parsed.outline.items@,
    )
}

/// A document of texts and line breaks: nothing soft, no extra indentation.
pub open spec fn plain(d: Doc) -> bool {
    is_hard(d) && indent_depth(d) == 0
}

/// Documents of texts and line breaks.
pub open spec fn all_plain(s: Seq<Doc>) -> bool {
    all_hard(s) && docs_indent_depth(s) == 0
}

proof fn lemma_push_plain(s: Seq<Doc>, d: Doc)
    requires
        all_plain(s),
        plain(d),
    ensures
        all_plain(s.push(d)),
        flat_texts(s.push(d), 0) == flat_texts(s, 0) + flat_text(d, 0),
{
    assert(s.push(d).subrange(0, s.len() as int) =~= s);
}

/// The documents one after the other.
fn concat_plain(docs: Vec<Doc>) -> (d: Doc)
    requires
        all_plain(docs@),
    ensures
        plain(d),
        flat_text(d, 0) == flat_texts(docs@, 0),
{
    let ghost s = docs@;
    proof {
        if s.len() == 1 {
            assert(s.subrange(0, 0) =~= Seq::<Doc>::empty());
            assert(flat_texts(s, 0) == flat_texts(s.subrange(0, 0), 0) + flat_text(s[0], 0));
            assert(Seq::<char>::empty() + flat_text(s[0], 0) =~= flat_text(s[0], 0));
        }
    }
    Doc::concat(docs)
}

/// A text as a document.
fn text_doc(t: &[char]) -> (d: Doc)
    ensures
        plain(d),
        flat_text(d, 0) == t@,
{
    Doc::Text(string_of(t))
}

/// A line break.
fn line_doc() -> (d: Doc)
    ensures
        plain(d),
        flat_text(d, 0) == seq!['\n'],
{
    assert(seq!['\n'] + crate::text::spaces(0) =~= seq!['\n']);
    Doc::hard_line()
}

/// The indexes of the tokens in `start..end` that are neither whitespace nor
/// a newline.
pub fn meaningful_tokens(parsed: &ParsedFile, start_token: usize, end_token: usize) -> (r: Vec<usize>)
    requires
        start_token <= end_token <= parsed.cst.tokens@.len(),
    ensures
        r@.map_values(|x: usize| x as int) == meaningful_in(
            parsed.cst.tokens@,
            start_token as int,
            end_token as int,
        ),
        forall|k: int| 0 <= k < r@.len() ==> start_token <= #[trigger] r@[k] < end_token,
{
    let toks = &parsed.cst.tokens;
    let mut r: Vec<usize> = Vec::new();
    let mut i = start_token;
    while i < end_token
        invariant
            start_token <= i <= end_token <= toks@.len(),
            r@.map_values(|x: usize| x as int) + meaningful_in(toks@, i as int, end_token as int)
                == meaningful_in(toks@, start_token as int, end_token as int),
            forall|k: int| 0 <= k < r@.len() ==> start_token <= #[trigger] r@[k] < i,
        decreases end_token - i,
    {
        let kind = toks[i].kind;
        let ghost before = r@.map_values(|x: usize| x as int);
        let ghost rest = meaningful_in(toks@, i + 1, end_token as int);
        if kind != TokenKind::Whitespace && kind != TokenKind::Newline {
            r.push(i);
            assert(r@.map_values(|x: usize| x as int) =~= before.push(i as int));
            assert(before + (seq![i as int] + rest) =~= before.push(i as int) + rest);
        }
        i = i + 1;
    }
    assert(r@.map_values(|x: usize| x as int) + Seq::<int>::empty() =~= r@.map_values(
        |x: usize| x as int,
    ));
    r
}

/// Indexes `start..end` of a list of indexes.
fn sub_indexes(v: &Vec<usize>, start: usize, end: usize) -> (r: Vec<usize>)
    requires
        start <= end <= v@.len(),
    ensures
        r@ == v@.subrange(start as int, end as int),
{
    let mut r: Vec<usize> = Vec::new();
    let mut i = start;
    while i < end
        invariant
            start <= i <= end <= v@.len(),
            r@ == v@.subrange(start as int, i as int),
        decreases end - i,
    {
        r.push(v[i]);
        i = i + 1;
        assert(r@ =~= v@.subrange(start as int, i as int));
    }
    r
}

/// The texts of the given tokens, one after the other.
pub fn join_token_texts(parsed: &ParsedFile, token_indexes: &[usize]) -> (r: Vec<char>)
    requires
        parsed.cst.wf(),
        forall|k: int| 0 <= k < token_indexes@.len() ==> #[trigger] token_indexes@[k] < parsed.cst.tokens@.len(),
    ensures
        r@ == joined(
            parsed.cst.source@,
            parsed.cst.tokens@,
            token_indexes@.map_values(|x: usize| x as int),
        ),
{
    let mut out: Vec<char> = Vec::new();
    let mut k: usize = 0;
    while k < token_indexes.len()
        invariant
            parsed.cst.wf(),
            forall|q: int| 0 <= q < token_indexes@.len() ==> #[trigger] token_indexes@[q] < parsed.cst.tokens@.len(),
            k <= token_indexes@.len(),
            out@ == joined(
                parsed.cst.source@,
                parsed.cst.tokens@,
                token_indexes@.subrange(0, k as int).map_values(|x: usize| x as int),
            ),
        decreases token_indexes@.len() - k,
    {
        let t = token_text(parsed, token_indexes[k]);
        let ghost before = token_indexes@.subrange(0, k as int).map_values(|x: usize| x as int);
        push_chars(&mut out, &t);
        k = k + 1;
        let ghost now = token_indexes@.subrange(0, k as int).map_values(|x: usize| x as int);
        assert(now.drop_last() =~= before);
        assert(now.last() == token_indexes@[k - 1] as int);
    }
    assert(token_indexes@.subrange(0, k as int) =~= token_indexes@);
    out
}

/// The text of a token.
pub fn token_text(parsed: &ParsedFile, token_index: usize) -> (r: Vec<char>)
    requires
        parsed.cst.wf(),
        token_index < parsed.cst.tokens@.len(),
    ensures
        r@ == tok_text(parsed.cst.source@, parsed.cst.tokens@[token_index as int]),
{
    let t = parsed.cst.tokens[token_index];
    assert(t.start < t.end <= parsed.cst.source@.len());
    crate::text::sub_chars(&parsed.cst.source, t.start, t.end)
}

/// The document of a package clause, or `None` when the item is no such
/// clause or has no name.
pub fn format_package_item(parsed: &ParsedFile, start_token: usize, end_token: usize) -> (r: Option<Doc>)
    requires
        parsed.cst.wf(),
        start_token <= end_token <= parsed.cst.tokens@.len(),
    ensures
        r is None <==> package_text(parsed.cst.source@, parsed.cst.tokens@, start_token as int, end_token as int) is None,
        r matches Some(d) ==> plain(d) && package_text(
            parsed.cst.source@,
            parsed.cst.tokens@,
            start_token as int,
            end_token as int,
        ) == Some(flat_text(d, 0)),
{
    proof {
        reveal_strlit("package");
        reveal_strlit(";");
        reveal_strlit("package ");
    }
    let tokens = meaningful_tokens(parsed, start_token, end_token);
    let ghost m = tokens@.map_values(|x: usize| x as int);
    let n = tokens.len();
    if n < 3 {
        return None;
    }
    let first = token_text(parsed, tokens[0]);
    let last = token_text(parsed, tokens[n - 1]);
    assert(m[0] == tokens@[0] as int);
    assert(m.last() == tokens@[n - 1] as int);
    if !text_is(&first, "package") || !text_is(&last, ";") {
        return None;
    }
    let body = sub_indexes(&tokens, 1, n - 1);
    assert(body@.map_values(|x: usize| x as int) =~= m.subrange(1, n - 1));
    let path = join_token_texts(parsed, &body);
    if path.len() == 0 {
        return None;
    }
    let mut docs: Vec<Doc> = Vec::new();
    let d1 = text_doc(&crate::text::vec_of("package "));
    let d2 = text_doc(&path);
    let d3 = text_doc(&crate::text::vec_of(";"));
    let ghost s1 = Seq::<Doc>::empty().push(d1);
    let ghost s2 = s1.push(d2);
    let ghost s3 = s2.push(d3);
    proof {
        lemma_push_plain(Seq::empty(), d1);
        lemma_push_plain(s1, d2);
        lemma_push_plain(s2, d3);
        assert(flat_texts(Seq::<Doc>::empty(), 0) + flat_text(d1, 0) =~= flat_text(d1, 0));
    }
    docs.push(d1);
    docs.push(d2);
    docs.push(d3);
    assert(docs@ =~= s3);
    Some(concat_plain(docs))
}

/// The document of an import, or `None` when the item is no such import or
/// has no name.
pub fn format_import_item(parsed: &ParsedFile, start_token: usize, end_token: usize) -> (r: Option<Doc>)
    requires
        parsed.cst.wf(),
        start_token <= end_token <= parsed.cst.tokens@.len(),
    ensures
        r is None <==> import_text(parsed.cst.source@, parsed.cst.tokens@, start_token as int, end_token as int) is None,
        r matches Some(d) ==> plain(d) && import_text(
            parsed.cst.source@,
            parsed.cst.tokens@,
            start_token as int,
            end_token as int,
        ) == Some(flat_text(d, 0)),
{
    proof {
        reveal_strlit("import");
        reveal_strlit(";");
        reveal_strlit("static");
        reveal_strlit("import ");
        reveal_strlit("import static ");
    }
    let tokens = meaningful_tokens(parsed, start_token, end_token);
    let ghost m = tokens@.map_values(|x: usize| x as int);
    let n = tokens.len();
    if n < 3 {
        return None;
    }
    let first = token_text(parsed, tokens[0]);
    let last = token_text(parsed, tokens[n - 1]);
    assert(m[0] == tokens@[0] as int);
    assert(m.last() == tokens@[n - 1] as int);
    if !text_is(&first, "import") || !text_is(&last, ";") {
        return None;
    }
    let second = token_text(parsed, tokens[1]);
    assert(m[1] == tokens@[1] as int);
    let is_static = text_is(&second, "static");
    let body_start: usize = if is_static {
        2
    } else {
        1
    };
    let body = sub_indexes(&tokens, body_start, n - 1);
    assert(body@.map_values(|x: usize| x as int) =~= m.subrange(body_start as int, n - 1));
    let path = join_token_texts(parsed, &body);
    if path.len() == 0 {
        return None;
    }
    let prefix = if is_static {
        crate::text::vec_of("import static ")
    } else {
        crate::text::vec_of("import ")
    };
    let mut docs: Vec<Doc> = Vec::new();
    let d1 = text_doc(&prefix);
    let d2 = text_doc(&path);
    let d3 = text_doc(&crate::text::vec_of(";"));
    let ghost s1 = Seq::<Doc>::empty().push(d1);
    let ghost s2 = s1.push(d2);
    let ghost s3 = s2.push(d3);
    proof {
        lemma_push_plain(Seq::empty(), d1);
        lemma_push_plain(s1, d2);
        lemma_push_plain(s2, d3);
        assert(flat_texts(Seq::<Doc>::empty(), 0) + flat_text(d1, 0) =~= flat_text(d1, 0));
    }
    docs.push(d1);
    docs.push(d2);
    docs.push(d3);
    assert(docs@ =~= s3);
    Some(concat_plain(docs))
}


proof fn lemma_concat_plain(a: Seq<Doc>, b: Seq<Doc>)
    requires
        all_plain(a),
        all_plain(b),
    ensures
        all_plain(a + b),
        flat_texts(a + b, 0) == flat_texts(a, 0) + flat_texts(b, 0),
    decreases b.len(),
{
    if b.len() == 0 {
        assert(a + b =~= a);
        assert(flat_texts(a, 0) + Seq::<char>::empty() =~= flat_texts(a, 0));
    } else {
        let front = b.subrange(0, b.len() - 1);
        assert(all_hard(front) && is_hard(b[b.len() - 1]));
        crate::doc::lemma_docs_indent_depth(b);
        assert(docs_indent_depth(front) == 0);
        lemma_concat_plain(a, front);
        assert((a + b).subrange(0, (a + b).len() - 1) =~= a + front);
        assert((a + b)[(a + b).len() - 1] == b[b.len() - 1]);
        assert(flat_texts(a, 0) + flat_texts(front, 0) + flat_text(b[b.len() - 1], 0) =~= flat_texts(
            a,
            0,
        ) + (flat_texts(front, 0) + flat_text(b[b.len() - 1], 0)));
    }
}

/// The document of a file of nothing but a package clause and imports, or
/// `None` for any other file, or one with comments.
pub fn format_package_import_file(parsed: &ParsedFile) -> (r: Option<Doc>)
    requires
        parsed.wf(),
    ensures
        r is None <==> package_import_text(*parsed) is None,
        r matches Some(d) ==> plain(d) && package_import_text(*parsed) == Some(flat_text(d, 0)),
{
    if parsed.comments.line_comment_count > 0 || parsed.comments.block_comment_count > 0 {
        return None;
    }
    let items = &parsed.outline.items;
    if items.len() == 0 {
        return None;
    }
    let ghost src = parsed.cst.source@;
    let ghost toks = parsed.cst.tokens@;
    let ghost goal = collect_items(src, toks, items@, 0, None, Seq::empty());
    let mut package_doc: Option<Doc> = None;
    let ghost mut package: Option<Seq<char>> = None;
    let mut tail: Vec<Doc> = Vec::new();
    let ghost mut imports: Seq<Seq<char>> = Seq::empty();
    let mut k: usize = 0;
    while k < items.len()
        invariant
            parsed.wf(),
            src == parsed.cst.source@,
            toks == parsed.cst.tokens@,
            items@ == parsed.outline.items@,
            goal == collect_items(src, toks, items@, 0, None, Seq::empty()),
            k <= items@.len(),
            collect_items(src, toks, items@, k as int, package, imports) == goal,
            package_doc is None <==> package is None,
            package_doc matches Some(d) ==> plain(d) && package == Some(flat_text(d, 0)),
            all_plain(tail@),
            flat_texts(tail@, 0) == import_lines(imports),
            tail@.len() == 2 * imports.len(),
        decreases items@.len() - k,
    {
        let item = items[k];
        assert(item.start_token < item.end_token <= toks.len());
        match item.kind {
            TopLevelItemKind::Package => {
                if package_doc.is_some() {
                    return None;
                }
                match format_package_item(parsed, item.start_token, item.end_token) {
                    Some(d) => {
                        proof {
                            package = Some(flat_text(d, 0));
                        }
                        package_doc = Some(d);
                    },
                    None => {
                        return None;
                    },
                }
            },
            TopLevelItemKind::Import => {
                match format_import_item(parsed, item.start_token, item.end_token) {
                    Some(d) => {
                        let h = line_doc();
                        let ghost t0 = tail@;
                        proof {
                            lemma_push_plain(t0, d);
                            lemma_push_plain(t0.push(d), h);
                            let next = imports.push(flat_text(d, 0));
                            assert(next.drop_last() =~= imports);
                            assert(import_lines(imports) + flat_text(d, 0) + seq!['\n'] =~= import_lines(
                                imports,
                            ) + flat_text(d, 0) + seq!['\n']);
                            imports = next;
                        }
                        tail.push(d);
                        tail.push(h);
                        assert(tail@ =~= t0.push(d).push(h));
                    },
                    None => {
                        return None;
                    },
                }
            },
            _ => {
                return None;
            },
        }
        k = k + 1;
    }
    let mut docs: Vec<Doc> = Vec::new();
    let ghost head: Seq<char>;
    match package_doc {
        Some(p) => {
            let ghost pt = flat_text(p, 0);
            let h1 = line_doc();
            proof {
                lemma_push_plain(Seq::empty(), p);
                lemma_push_plain(seq![p], h1);
                assert(Seq::<Doc>::empty().push(p) =~= seq![p]);
                assert(flat_texts(Seq::<Doc>::empty(), 0) + pt =~= pt);
            }
            docs.push(p);
            docs.push(h1);
            assert(docs@ =~= seq![p].push(h1));
            if tail.len() > 0 {
                let h2 = line_doc();
                let ghost d0 = docs@;
                proof {
                    lemma_push_plain(d0, h2);
                }
                docs.push(h2);
                assert(docs@ =~= d0.push(h2));
                proof {
                    head = pt + seq!['\n', '\n'];
                    assert(pt + seq!['\n'] + seq!['\n'] =~= head);

                }
            } else {
                proof {
                    head = pt + seq!['\n'];
                    assert(tail@ =~= Seq::<Doc>::empty());

                }
            }
        },
        None => {
            proof {
                head = Seq::empty();
            }
        },
    }
    let ghost d_before = docs@;
    proof {
        lemma_concat_plain(d_before, tail@);
    }
    docs.append(&mut tail);
    assert(head + import_lines(imports) == flat_texts(docs@, 0));
    Some(concat_plain(docs))
}

/// The document of a text: its lines as texts, each followed by a line
/// break where the text has one.
pub fn text_to_doc(text: &[char]) -> (d: Doc)
    ensures
        plain(d),
        flat_text(d, 0) == text@,
{
    let mut docs: Vec<Doc> = Vec::new();
    let mut i: usize = 0;
    while i < text.len()
        invariant
            i <= text@.len(),
            all_plain(docs@),
            flat_texts(docs@, 0) == text@.subrange(0, i as int),
        decreases text@.len() - i,
    {
        let mut j = i;
        while j < text.len() && text[j] != '\n'
            invariant
                i <= j <= text@.len(),
            decreases text@.len() - j,
        {
            j = j + 1;
        }
        if j > i {
            let d = text_doc(&crate::text::sub_chars(text, i, j));
            let ghost d0 = docs@;
            proof {
                lemma_push_plain(d0, d);
            }
            docs.push(d);
            assert(docs@ =~= d0.push(d));
            assert(text@.subrange(0, i as int) + text@.subrange(i as int, j as int) =~= text@.subrange(
                0,
                j as int,
            ));
        } else {
            assert(text@.subrange(0, i as int) =~= text@.subrange(0, j as int));
        }
        if j < text.len() {
            let h = line_doc();
            let ghost d0 = docs@;
            proof {
                lemma_push_plain(d0, h);
            }
            docs.push(h);
            assert(docs@ =~= d0.push(h));
            assert(text@.subrange(0, j as int) + seq!['\n'] =~= text@.subrange(0, j + 1));
            i = j + 1;
        } else {
            i = j;
        }
    }
    assert(text@.subrange(0, text@.len() as int) =~= text@);
    concat_plain(docs)
}

/// A text the printer may make of the tokens of a source: no run of three
/// newlines, a final newline unless it is empty, empty when no token is
/// meaningful, and, up to spaces and line breaks, the meaningful tokens'
/// texts with each block comment normalized at some indentation (their
/// plain texts where block comments keep their visible characters when
/// normalized); and it is exactly the finished text of a run of the
/// printer over the meaningful tokens, step by step as `token_step` says.
pub open spec fn printed_from(source: Seq<char>, toks: Seq<Token>, t: Seq<char>) -> bool {
    &&& exists|tk: Toks, trace: Seq<Snap>|
        tk.wf() && tk.toks@ == meaningful(toks) && tk.source@ == source
            && #[trigger] printer_run(&tk, trace) && t == finished_output(trace.last().out)
    &&& no_triple_newline(t)
    &&& (t.len() > 0 ==> t.last() == '\n')
    &&& (meaningful(toks).len() == 0 ==> t.len() == 0)
    &&& (block_comments_keep_text(source, meaningful(toks)) ==> visible(t) == visible(
        tokens_text(source, meaningful(toks), meaningful(toks).len() as int),
    ))
    &&& exists|ns: Seq<Option<nat>>|
        ns.len() == meaningful(toks).len() && visible(t) == visible(
            #[trigger] tokens_pieces(source, meaningful(toks), ns, meaningful(toks).len() as int),
        )
}

/// What the token path makes of a printed text: its declarations finished
/// (for a text of a size that the finishing takes) and the trailing
/// whitespace of its lines trimmed.
pub open spec fn finished_text(printed: Seq<char>) -> Seq<char> {
    emitted(
        if printed.len() <= usize::MAX / 8 {
            finalized(printed)
        } else {
            printed
        },
    )
}

/// The output of the token path on a source and its tokens: the finished
/// text of something the printer may make of them.
pub open spec fn token_path_output(source: Seq<char>, toks: Seq<Token>, out: Seq<char>) -> bool {
    exists|t: Seq<char>| printed_from(source, toks, t) && out == finished_text(t)
}

/// The printer's text of a file, its declarations finished and its lines
/// trimmed, ending with a newline unless it is empty. Declarations are
/// finished when the printed text has at most `usize::MAX / 8` characters,
/// as every text that fits in memory has.
pub fn print_finished(cst: &crate::cst::Cst, comments: crate::comments::CommentAttachment) -> (r: String)
    requires
        cst.wf(),
        cst.tokens@.len() <= usize::MAX / 128,
    ensures
        no_trailing_blank(r@),
        r@.len() > 0 ==> r@.last() == '\n',
        token_path_output(cst.source@, cst.tokens@, r@),
{
    let ir = crate::ir::build(cst, comments);
    let printed = crate::printer::print(&ir);
    let ghost printed_text = printed.text@;
    let text = chars_of(printed.text.as_str());
    let finished = if text.len() <= usize::MAX / 8 {
        crate::declarations::finalize_declarations_chars(&text)
    } else {
        text
    };
    let doc = PrintedDoc { text: string_of(&finished) };
    let ghost t = doc.text@;
    let r = emit(doc);
    proof {
        crate::emit::lemma_emitted(t);
        assert(printed_from(cst.source@, cst.tokens@, printed_text) && r@ == finished_text(
            printed_text,
        ));
    }
    r
}

/// The token path: the printer's text of a file, its declarations finished
/// and its lines trimmed.
pub fn legacy_format(parsed: &ParsedFile) -> (r: String)
    requires
        parsed.wf(),
        parsed.cst.tokens@.len() <= usize::MAX / 128,
    ensures
        no_trailing_blank(r@),
        r@.len() > 0 ==> r@.last() == '\n',
        token_path_output(parsed.cst.source@, parsed.cst.tokens@, r@),
{
    print_finished(&parsed.cst, parsed.comments)
}

/// The token path on a lexed file.
pub fn format_lexed(lexed: &crate::lexer::LexedSource) -> (r: String)
    requires
        crate::lexer::tokens_tile(lexed.tokens@, 0, lexed.source@.len() as int),
        lexed.tokens@.len() <= usize::MAX / 128,
    ensures
        no_trailing_blank(r@),
        r@.len() > 0 ==> r@.last() == '\n',
        token_path_output(lexed.source@, lexed.tokens@, r@),
{
    let cst = crate::parser::parse(lexed);
    let comments = crate::comments::attach(&cst, lexed);
    print_finished(&cst, comments)
}

/// The document of a file: built item by item for a file of nothing but a
/// package clause and imports, else the lines of the token path.
pub fn format_file(parsed: &ParsedFile) -> (d: Doc)
    requires
        parsed.wf(),
        parsed.cst.tokens@.len() <= usize::MAX / 128,
    ensures
        plain(d),
        package_import_text(*parsed) matches Some(t) ==> flat_text(d, 0) == t,
        package_import_text(*parsed) is None ==> no_trailing_blank(flat_text(d, 0)) && (flat_text(
            d,
            0,
        ).len() > 0 ==> flat_text(d, 0).last() == '\n') && token_path_output(
            parsed.cst.source@,
            parsed.cst.tokens@,
            flat_text(d, 0),
        ),
{
    match format_package_import_file(parsed) {
        Some(doc) => doc,
        None => {
            let legacy_output = legacy_format(parsed);
            let chars = chars_of(legacy_output.as_str());
            let line_doc = text_to_doc(&chars);
            let indented = Doc::indent(0, line_doc);
            let mut parts: Vec<Doc> = Vec::new();
            parts.push(indented);
            parts.push(Doc::Nil);
            let ghost ps = parts@;
            proof {
                assert(ps[0] == indented);
                assert(indent_depth(indented) == 0);
                reveal_with_fuel(docs_indent_depth, 3);
                reveal_with_fuel(all_hard, 3);
                assert(ps.subrange(0, 1)[0] == ps[0]);
                assert(ps.subrange(0, 1).subrange(0, 0) =~= Seq::<Doc>::empty());
                assert(ps.subrange(0, ps.len() - 1) =~= ps.subrange(0, 1));
                assert(ps.subrange(0, 1) =~= seq![ps[0]]);
                assert(flat_texts(ps, 0) == flat_texts(ps.subrange(0, 1), 0) + flat_text(Doc::Nil, 0));
                assert(flat_texts(ps.subrange(0, 1), 0) == flat_texts(Seq::<Doc>::empty(), 0)
                    + flat_text(ps[0], 0));
                assert(Seq::<char>::empty() + flat_text(ps[0], 0) + Seq::<char>::empty() =~= flat_text(
                    ps[0],
                    0,
                ));
                assert(docs_indent_depth(ps.subrange(0, 1)) == 0);
                assert(all_hard(ps));
                assert(docs_indent_depth(ps) == 0);
                assert(flat_texts(ps, 0) == flat_text(line_doc, 0));
            }
            let c = Doc::concat(parts);
            assert(is_hard(c) && indent_depth(c) == 0 && flat_text(c, 0) == flat_text(line_doc, 0));
            let g = Doc::group(c);
            assert(is_hard(g) && indent_depth(g) == 0 && flat_text(g, 0) == flat_text(line_doc, 0));
            g
        },
    }
}

/// The formatted text of a file: the layout of its document in lines of 100
/// columns, which for these documents is their text at any width.
pub fn format(parsed: &ParsedFile) -> (r: String)
    requires
        parsed.wf(),
        parsed.cst.tokens@.len() <= usize::MAX / 128,
    ensures
        package_import_text(*parsed) matches Some(t) ==> r@ == t,
        package_import_text(*parsed) is None ==> no_trailing_blank(r@) && (r@.len() > 0
            ==> r@.last() == '\n') && token_path_output(
            parsed.cst.source@,
            parsed.cst.tokens@,
            r@,
        ),
{
    let doc = format_file(parsed);
    let r = crate::layout::render(&doc, 100);
    proof {
        crate::layout::lemma_hard_doc_rendered(doc, 100);
    }
    r
}


/// The document of printed text: trailing spaces and tabs removed from every
/// line, a final newline added, and the lines laid out as they are.
pub fn printed_doc_to_doc(doc: PrintedDoc) -> (d: Doc)
    ensures
        plain(d),
        flat_text(d, 0) == emitted(doc.text@),
{
    let text = emit(doc);
    let chars = chars_of(text.as_str());
    text_to_doc(&chars)
}

/// The document of a file through the token printer alone.
pub fn format_doc(parsed: &ParsedFile) -> (d: Doc)
    requires
        parsed.wf(),
        parsed.cst.tokens@.len() <= usize::MAX / 128,
    ensures
        plain(d),
        exists|t: Seq<char>|
            printed_from(parsed.cst.source@, parsed.cst.tokens@, t) && flat_text(d, 0) == emitted(t),
{
    let format_ir = crate::ir::build(&parsed.cst, parsed.comments);
    let printed = crate::printer::print(&format_ir);
    let ghost t = printed.text@;
    let d = printed_doc_to_doc(printed);
    assert(printed_from(parsed.cst.source@, parsed.cst.tokens@, t) && flat_text(d, 0) == emitted(t));
    d
}

} // verus!
