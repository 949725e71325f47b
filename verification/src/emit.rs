//! The last step of the token path: trailing spaces and tabs go, and the text
//! ends with a newline.
use vstd::prelude::*;
use crate::printer::PrintedDoc;
use crate::text::{chars_of, push_chars, string_of};

verus! {

/// A space or a tab.
pub open spec fn is_blank(c: char) -> bool {
    c == ' ' || c == '\t'
}

/// `s` with the blanks at the end of each line removed, where `pending`
/// holds the blanks read since the last other character: a run of blanks is
/// kept only when a character other than a newline follows it.
pub open spec fn trim_lines_from(s: Seq<char>, pending: Seq<char>) -> Seq<char>
    decreases s.len(),
{
    if s.len() == 0 {
        Seq::empty()
    } else if is_blank(s[0]) {
        trim_lines_from(s.drop_first(), pending.push(s[0]))
    } else if s[0] == '\n' {
        seq!['\n'] + trim_lines_from(s.drop_first(), Seq::empty())
    } else {
        pending + seq![s[0]] + trim_lines_from(s.drop_first(), Seq::empty())
    }
}

/// `s` with the spaces and tabs at the end of every line removed.
pub open spec fn trim_trailing(s: Seq<char>) -> Seq<char> {
    trim_lines_from(s, Seq::empty())
}

/// No space or tab stands right before a newline or at the end.
pub open spec fn no_trailing_blank(s: Seq<char>) -> bool {
    forall|k: int| 0 <= k < s.len() && is_blank(#[trigger] s[k]) ==> k + 1 < s.len() && s[k + 1] != '\n'
}

/// The characters that are not spaces or tabs.
pub open spec fn non_blank(s: Seq<char>) -> Seq<char> {
    s.filter(|c: char| !is_blank(c))
}

/// What `emit` makes of a printed text.
pub open spec fn emitted(text: Seq<char>) -> Seq<char> {
    let t = trim_trailing(text);
    if t.len() == 0 {
        Seq::empty()
    } else if t.last() == '\n' {
        t
    } else {
        t.push('\n')
    }
}

proof fn lemma_no_trailing_blank_concat(x: Seq<char>, y: Seq<char>)
    requires
        no_trailing_blank(x),
        no_trailing_blank(y),
        x.len() > 0 ==> !is_blank(x.last()),
    ensures
        no_trailing_blank(x + y),
{
    let z = x + y;
    assert forall|k: int| 0 <= k < z.len() && is_blank(#[trigger] z[k]) implies k + 1 < z.len()
        && z[k + 1] != '\n' by {
        if k < x.len() {
            assert(z[k] == x[k]);
            assert(k + 1 < x.len());
            assert(z[k + 1] == x[k + 1]);
        } else {
            assert(z[k] == y[k - x.len()]);
            assert(z[k + 1] == y[k + 1 - x.len()]);
        }
    }
}

proof fn lemma_run_then_char(pending: Seq<char>, c: char)
    requires
        forall|k: int| 0 <= k < pending.len() ==> is_blank(#[trigger] pending[k]),
        !is_blank(c),
        c != '\n',
    ensures
        no_trailing_blank(pending + seq![c]),
{
    let z = pending + seq![c];
    assert forall|k: int| 0 <= k < z.len() && is_blank(#[trigger] z[k]) implies k + 1 < z.len()
        && z[k + 1] != '\n' by {
        if k + 1 < pending.len() {
            assert(z[k + 1] == pending[k + 1]);
        } else {
            assert(z[k + 1] == c);
        }
    }
}

/// Trimming leaves no space or tab before a newline or at the end.
pub proof fn lemma_trim_leaves_no_trailing_blank(s: Seq<char>, pending: Seq<char>)
    requires
        forall|k: int| 0 <= k < pending.len() ==> is_blank(#[trigger] pending[k]),
    ensures
        no_trailing_blank(trim_lines_from(s, pending)),
    decreases s.len(),
{
    if s.len() == 0 {
    } else if is_blank(s[0]) {
        let p2 = pending.push(s[0]);
        assert forall|k: int| 0 <= k < p2.len() implies is_blank(#[trigger] p2[k]) by {
            if k < pending.len() {
                assert(p2[k] == pending[k]);
            }
        }
        lemma_trim_leaves_no_trailing_blank(s.drop_first(), p2);
    } else if s[0] == '\n' {
        lemma_trim_leaves_no_trailing_blank(s.drop_first(), Seq::empty());
        lemma_no_trailing_blank_concat(seq!['\n'], trim_lines_from(s.drop_first(), Seq::empty()));
    } else {
        lemma_trim_leaves_no_trailing_blank(s.drop_first(), Seq::empty());
        lemma_run_then_char(pending, s[0]);
        lemma_no_trailing_blank_concat(
            pending + seq![s[0]],
            trim_lines_from(s.drop_first(), Seq::empty()),
        );
    }
}

/// Trimming removes nothing but spaces and tabs: the other characters stay,
/// in order.
pub proof fn lemma_trim_keeps_non_blank(s: Seq<char>, pending: Seq<char>)
    requires
        forall|k: int| 0 <= k < pending.len() ==> is_blank(#[trigger] pending[k]),
    ensures
        non_blank(trim_lines_from(s, pending)) == non_blank(s),
    decreases s.len(),
{
    let f = |c: char| !is_blank(c);
    if s.len() == 0 {
        assert(non_blank(s) =~= Seq::<char>::empty());
        assert(non_blank(Seq::<char>::empty()) =~= Seq::<char>::empty());
    } else {
        let rest = s.drop_first();
        assert(s =~= seq![s[0]] + rest);
        Seq::filter_distributes_over_add(seq![s[0]], rest, f);
        assert(seq![s[0]].filter(f) =~= if f(s[0]) { seq![s[0]] } else { Seq::<char>::empty() }) by {
            reveal_with_fuel(Seq::filter, 2);
        }
        if is_blank(s[0]) {
            let p2 = pending.push(s[0]);
            assert forall|k: int| 0 <= k < p2.len() implies is_blank(#[trigger] p2[k]) by {
                if k < pending.len() {
                    assert(p2[k] == pending[k]);
                }
            }
            lemma_trim_keeps_non_blank(rest, p2);
        } else if s[0] == '\n' {
            lemma_trim_keeps_non_blank(rest, Seq::empty());
            let t = trim_lines_from(rest, Seq::empty());
            Seq::filter_distributes_over_add(seq!['\n'], t, f);
            assert(seq!['\n'].filter(f) =~= seq!['\n']) by {
                reveal_with_fuel(Seq::filter, 2);
            }
        } else {
            lemma_trim_keeps_non_blank(rest, Seq::empty());
            let t = trim_lines_from(rest, Seq::empty());
            lemma_blank_run_filters_away(pending);
            Seq::filter_distributes_over_add(pending, seq![s[0]], f);
            Seq::filter_distributes_over_add(pending + seq![s[0]], t, f);
            assert(seq![s[0]].filter(f) =~= seq![s[0]]) by {
                reveal_with_fuel(Seq::filter, 2);
            }
            assert(pending.filter(f) + seq![s[0]].filter(f) =~= seq![s[0]]);
        }
    }
}

proof fn lemma_blank_run_filters_away(pending: Seq<char>)
    requires
        forall|k: int| 0 <= k < pending.len() ==> is_blank(#[trigger] pending[k]),
    ensures
        pending.filter(|c: char| !is_blank(c)) =~= Seq::<char>::empty(),
    decreases pending.len(),
{
    let f = |c: char| !is_blank(c);
    if pending.len() == 0 {
    } else {
        let front = pending.drop_last();
        assert forall|k: int| 0 <= k < front.len() implies is_blank(#[trigger] front[k]) by {
            assert(front[k] == pending[k]);
        }
        lemma_blank_run_filters_away(front);
        assert(pending =~= front.push(pending.last()));
        assert(pending.filter(f) == front.filter(f)) by {
            reveal_with_fuel(Seq::filter, 1);
            assert(pending.drop_last() =~= front);
        }
    }
}

/// Removes the spaces and tabs at the end of every line.
pub fn trim_trailing_chars(input: &[char]) -> (r: Vec<char>)
    ensures
        r@ == trim_trailing(input@),
{
    let mut out: Vec<char> = Vec::new();
    let mut pending: Vec<char> = Vec::new();
    let mut i: usize = 0;
    assert(input@.subrange(0, input@.len() as int) =~= input@);
    while i < input.len()
        invariant
            i <= input@.len(),
            out@ + trim_lines_from(input@.subrange(i as int, input@.len() as int), pending@)
                == trim_trailing(input@),
        decreases input@.len() - i,
    {
        let ghost rest = input@.subrange(i as int, input@.len() as int);
        let ghost next = input@.subrange(i + 1, input@.len() as int);
        assert(rest.drop_first() =~= next);
        assert(rest[0] == input@[i as int]);
        let c = input[i];
        if c == ' ' || c == '\t' {
            pending.push(c);
        } else if c == '\n' {
            let ghost t = trim_lines_from(next, Seq::empty());
            assert(out@ + (seq!['\n'] + t) =~= out@.push('\n') + t);
            out.push('\n');
            pending = Vec::new();
        } else {
            let ghost t = trim_lines_from(next, Seq::empty());
            let ghost p = pending@;
            assert(out@ + (p + seq![c] + t) =~= (out@ + p).push(c) + t);
            push_chars(&mut out, &pending);
            out.push(c);
            pending = Vec::new();
        }
        i = i + 1;
    }
    assert(input@.subrange(i as int, input@.len() as int) =~= Seq::<char>::empty());
    assert(out@ + Seq::<char>::empty() =~= out@);
    out
}

/// Removes the spaces and tabs at the end of every line of a string.
pub fn trim_trailing_whitespace(input: &str) -> (r: String)
    ensures
        r@ == trim_trailing(input@),
{
    let chars = chars_of(input);
    let trimmed = trim_trailing_chars(&chars);
    string_of(&trimmed)
}

/// The text with trailing spaces and tabs removed from every line and a
/// final newline; an empty text stays empty.
pub fn emit(doc: PrintedDoc) -> (r: String)
    ensures
        r@ == emitted(doc.text@),
{
    let text = chars_of(doc.text.as_str());
    let mut normalized = trim_trailing_chars(&text);
    if normalized.len() == 0 {
        return String::new();
    }
    if normalized[normalized.len() - 1] != '\n' {
        normalized.push('\n');
    }
    string_of(&normalized)
}

/// What `emit` returns has no space or tab before a newline or at its end,
/// and ends with a newline unless it is empty; the trimmed text keeps every
/// character of the printed text other than spaces and tabs, in order.
pub proof fn lemma_emitted(text: Seq<char>)
    ensures
        no_trailing_blank(emitted(text)),
        emitted(text).len() > 0 ==> emitted(text).last() == '\n',
        non_blank(trim_trailing(text)) == non_blank(text),
{
    let t = trim_trailing(text);
    lemma_trim_leaves_no_trailing_blank(text, Seq::empty());
    lemma_trim_keeps_non_blank(text, Seq::empty());
    if t.len() > 0 && t.last() != '\n' {
        assert(!is_blank(t[t.len() - 1]));
        lemma_no_trailing_blank_concat(t, seq!['\n']);
        assert(t.push('\n') =~= t + seq!['\n']);
    }
}

/// A text with no trailing blanks is left as it is by trimming, the blanks
/// read before it (`pending`) put back in front.
proof fn lemma_trim_fixed(s: Seq<char>, pending: Seq<char>)
    requires
        no_trailing_blank(s),
        s.len() == 0 || s[0] == '\n' ==> pending.len() == 0,
    ensures
        trim_lines_from(s, pending) == pending + s,
    decreases s.len(),
{
    if s.len() == 0 {
        assert(pending + s =~= Seq::<char>::empty());
    } else {
        let rest = s.drop_first();
        assert(no_trailing_blank(rest)) by {
            assert forall|k: int| 0 <= k < rest.len() && is_blank(#[trigger] rest[k]) implies k + 1
                < rest.len() && rest[k + 1] != '\n' by {
                assert(rest[k] == s[k + 1]);
                assert(s[k + 2] == rest[k + 1]);
            }
        }
        if is_blank(s[0]) {
            assert(1 < s.len() && s[1] != '\n');
            assert(rest[0] == s[1]);
            lemma_trim_fixed(rest, pending.push(s[0]));
            assert(pending.push(s[0]) + rest =~= pending + s);
        } else if s[0] == '\n' {
            lemma_trim_fixed(rest, Seq::empty());
            assert(seq!['\n'] + (Seq::<char>::empty() + rest) =~= pending + s);
        } else {
            lemma_trim_fixed(rest, Seq::empty());
            assert(pending + seq![s[0]] + (Seq::<char>::empty() + rest) =~= pending + s);
        }
    }
}

/// Emitting is idempotent: emitting an emitted text gives it back.
pub proof fn lemma_emitted_idempotent(text: Seq<char>)
    ensures
        emitted(emitted(text)) == emitted(text),
{
    let e = emitted(text);
    lemma_emitted(text);
    lemma_trim_fixed(e, Seq::empty());
    assert(Seq::<char>::empty() + e =~= e);
}

} // verus!
