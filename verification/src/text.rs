//! Character-sequence helpers shared by every stage of the formatter.
//!
//! Text is held as `Vec<char>` inside the library; its model is the
//! `Seq<char>` that `@` gives.
use vstd::prelude::*;

verus! {

/// `b` is a prefix of `a`.
pub open spec fn seq_starts_with(a: Seq<char>, b: Seq<char>) -> bool {
    b.len() <= a.len() && a.subrange(0, b.len() as int) == b
}

/// `b` is a suffix of `a`.
pub open spec fn seq_ends_with(a: Seq<char>, b: Seq<char>) -> bool {
    b.len() <= a.len() && a.subrange(a.len() - b.len(), a.len() as int) == b
}

/// `b` occurs in `a` at position `i`.
pub open spec fn occurs_at(a: Seq<char>, b: Seq<char>, i: int) -> bool {
    0 <= i && i + b.len() <= a.len() && a.subrange(i, i + b.len()) == b
}

/// `b` occurs somewhere in `a`.
pub open spec fn seq_contains(a: Seq<char>, b: Seq<char>) -> bool {
    exists|i: int| occurs_at(a, b, i)
}

/// The characters of a string slice, in order.
pub fn chars_of(s: &str) -> (v: Vec<char>)
    ensures
        v@ == s@,
{
    let n = s.unicode_len();
    let mut v: Vec<char> = Vec::new();
    let mut i: usize = 0;
    while i < n
        invariant
            n == s@.len(),
            i <= n,
            v@ == s@.subrange(0, i as int),
        decreases n - i,
    {
        let c = s.get_char(i);
        v.push(c);
        i = i + 1;
        assert(v@ =~= s@.subrange(0, i as int));
    }
    assert(v@ =~= s@);
    v
}

/// Builds a `String` from characters (std's `FromIterator<char>` for `String`).
#[verifier::external_body]
pub fn string_of(v: &[char]) -> (s: String)
    ensures
        s@ == v@,
{
    v.iter().collect::<String>()
}

/// Appends the characters of a string slice.
pub fn push_str(out: &mut Vec<char>, s: &str)
    ensures
        final(out)@ == old(out)@ + s@,
{
    let n = s.unicode_len();
    let mut i: usize = 0;
    while i < n
        invariant
            n == s@.len(),
            i <= n,
            out@ == old(out)@ + s@.subrange(0, i as int),
        decreases n - i,
    {
        let c = s.get_char(i);
        out.push(c);
        i = i + 1;
        assert(out@ =~= old(out)@ + s@.subrange(0, i as int));
    }
    assert(s@.subrange(0, n as int) =~= s@);
}

/// Appends a slice of characters.
pub fn push_chars(out: &mut Vec<char>, t: &[char])
    ensures
        final(out)@ == old(out)@ + t@,
{
    let mut i: usize = 0;
    while i < t.len()
        invariant
            i <= t@.len(),
            out@ == old(out)@ + t@.subrange(0, i as int),
        decreases t@.len() - i,
    {
        out.push(t[i]);
        i = i + 1;
        assert(out@ =~= old(out)@ + t@.subrange(0, i as int));
    }
    assert(t@.subrange(0, t@.len() as int) =~= t@);
}

/// A fresh vector holding the characters of `s`.
pub fn vec_of(s: &str) -> (v: Vec<char>)
    ensures
        v@ == s@,
{
    chars_of(s)
}

/// A copy of a character slice.
pub fn copy_chars(t: &[char]) -> (v: Vec<char>)
    ensures
        v@ == t@,
{
    let mut v: Vec<char> = Vec::new();
    push_chars(&mut v, t);
    assert(v@ =~= t@);
    v
}

/// Characters `start..end` of `t`.
pub fn sub_chars(t: &[char], start: usize, end: usize) -> (v: Vec<char>)
    requires
        start <= end <= t@.len(),
    ensures
        v@ == t@.subrange(start as int, end as int),
{
    let mut v: Vec<char> = Vec::new();
    let mut i = start;
    while i < end
        invariant
            start <= i <= end <= t@.len(),
            v@ == t@.subrange(start as int, i as int),
        decreases end - i,
    {
        v.push(t[i]);
        i = i + 1;
        assert(v@ =~= t@.subrange(start as int, i as int));
    }
    v
}

/// The two character sequences are equal.
pub fn chars_eq(a: &[char], b: &[char]) -> (r: bool)
    ensures
        r == (a@ == b@),
{
    if a.len() != b.len() {
        return false;
    }
    let mut i: usize = 0;
    while i < a.len()
        invariant
            a@.len() == b@.len(),
            i <= a@.len(),
            forall|k: int| 0 <= k < i ==> a@[k] == b@[k],
        decreases a@.len() - i,
    {
        if a[i] != b[i] {
            return false;
        }
        i = i + 1;
    }
    assert(a@ =~= b@);
    true
}

/// The characters equal the string slice.
pub fn text_is(t: &[char], s: &str) -> (r: bool)
    ensures
        r == (t@ == s@),
{
    let n = s.unicode_len();
    if t.len() != n {
        return false;
    }
    let mut i: usize = 0;
    while i < n
        invariant
            n == s@.len(),
            t@.len() == n,
            i <= n,
            forall|k: int| 0 <= k < i ==> t@[k] == s@[k],
        decreases n - i,
    {
        if t[i] != s.get_char(i) {
            return false;
        }
        i = i + 1;
    }
    assert(t@ =~= s@);
    true
}

/// `t` begins with the characters of `s` at position `at`.
pub fn text_at(t: &[char], at: usize, s: &str) -> (r: bool)
    ensures
        r == occurs_at(t@, s@, at as int),
{
    let n = s.unicode_len();
    if at > t.len() || n > t.len() - at {
        return false;
    }
    let mut i: usize = 0;
    while i < n
        invariant
            n == s@.len(),
            at + n <= t.len(),
            i <= n,
            forall|k: int| 0 <= k < i ==> t@[at + k] == s@[k],
        decreases n - i,
    {
        if t[at + i] != s.get_char(i) {
            assert(t@.subrange(at as int, at + n)[i as int] != s@[i as int]);
            return false;
        }
        i = i + 1;
    }
    assert(t@.subrange(at as int, at + n) =~= s@);
    true
}

/// Characters `start..end` of `t` equal the string slice.
pub fn span_is(t: &[char], start: usize, end: usize, s: &str) -> (r: bool)
    requires
        start <= end <= t@.len(),
    ensures
        r == (t@.subrange(start as int, end as int) == s@),
{
    let n = s.unicode_len();
    if end - start != n {
        return false;
    }
    let r = text_at(t, start, s);
    proof {
        if r {
            assert(t@.subrange(start as int, end as int) == s@);
        }
    }
    r
}

/// `t` starts with `s`.
pub fn starts_with(t: &[char], s: &str) -> (r: bool)
    ensures
        r == seq_starts_with(t@, s@),
{
    text_at(t, 0, s)
}

/// `t` ends with `s`.
pub fn ends_with(t: &[char], s: &str) -> (r: bool)
    ensures
        r == seq_ends_with(t@, s@),
{
    let n = s.unicode_len();
    if n > t.len() {
        return false;
    }
    text_at(t, t.len() - n, s)
}

/// `t` ends with the character `c`.
pub fn ends_with_char(t: &[char], c: char) -> (r: bool)
    ensures
        r == (t@.len() > 0 && t@.last() == c),
{
    t.len() > 0 && t[t.len() - 1] == c
}

/// `t` contains the character `c`.
pub fn contains_char(t: &[char], c: char) -> (r: bool)
    ensures
        r == t@.contains(c),
{
    let mut i: usize = 0;
    while i < t.len()
        invariant
            i <= t@.len(),
            forall|k: int| 0 <= k < i ==> t@[k] != c,
        decreases t@.len() - i,
    {
        if t[i] == c {
            return true;
        }
        i = i + 1;
    }
    false
}

/// `t` contains the characters of `s` as a contiguous run.
pub fn contains(t: &[char], s: &str) -> (r: bool)
    ensures
        r == seq_contains(t@, s@),
{
    let mut i: usize = 0;
    while i < t.len()
        invariant
            i <= t@.len(),
            forall|k: int| 0 <= k < i ==> !occurs_at(t@, s@, k),
        decreases t@.len() - i,
    {
        if text_at(t, i, s) {
            return true;
        }
        i = i + 1;
    }
    if text_at(t, i, s) {
        return true;
    }
    assert forall|k: int| !occurs_at(t@, s@, k) by {
        if 0 <= k && k + s@.len() <= t@.len() {
            assert(k <= i);
        }
    }
    false
}

} // verus!

verus! {

/// `t` is one of the given strings.
pub fn is_one_of(t: &[char], set: &[&str]) -> (r: bool)
    ensures
        r == exists|k: int| 0 <= k < set@.len() && t@ == set@[k]@,
{
    let mut k: usize = 0;
    while k < set.len()
        invariant
            k <= set@.len(),
            forall|j: int| 0 <= j < k ==> t@ != set@[j]@,
        decreases set@.len() - k,
    {
        if text_is(t, set[k]) {
            return true;
        }
        k = k + 1;
    }
    false
}

/// The optional text is present and is one of the given strings.
pub fn opt_one_of(o: &Option<Vec<char>>, set: &[&str]) -> (r: bool)
    ensures
        r == (o matches Some(t) && exists|k: int| 0 <= k < set@.len() && t@ == set@[k]@),
{
    match o {
        Some(t) => is_one_of(t, set),
        None => false,
    }
}

} // verus!

verus! {

/// The lines of a text in the manner of `str::lines`: split at `'\n'`, a
/// `'\r'` before the `'\n'` dropped, and no empty last line after a final
/// `'\n'`.
pub open spec fn spec_lines(s: Seq<char>) -> Seq<Seq<char>>
    decreases s.len(),
{
    if s.len() == 0 {
        Seq::empty()
    } else {
        let i = crate::lexer::line_end(s, 0);
        if 0 <= i < s.len() {
            let line = s.subrange(0, i);
            let line = if line.len() > 0 && line.last() == '\r' {
                line.drop_last()
            } else {
                line
            };
            seq![line] + spec_lines(s.subrange(i + 1, s.len() as int))
        } else {
            seq![s]
        }
    }
}

/// Every line of a text is at most as long as the text.
pub proof fn lemma_lines_short(s: Seq<char>)
    ensures
        forall|j: int| 0 <= j < spec_lines(s).len() ==> (#[trigger] spec_lines(s)[j]).len() <= s.len(),
    decreases s.len(),
{
    if s.len() > 0 {
        let i = crate::lexer::line_end(s, 0);
        if 0 <= i < s.len() {
            let rest = s.subrange(i + 1, s.len() as int);
            lemma_lines_short(rest);
            let ls = spec_lines(s);
            assert forall|j: int| 0 <= j < ls.len() implies (#[trigger] ls[j]).len() <= s.len() by {
                if j > 0 {
                    assert(ls[j] == spec_lines(rest)[j - 1]);
                }
            }
        }
    }
}

/// The number of leading characters that are whitespace.
pub open spec fn leading_ws(s: Seq<char>) -> nat
    decreases s.len(),
{
    if s.len() == 0 || !crate::lexer::char_is_whitespace(s[0]) {
        0
    } else {
        1 + leading_ws(s.drop_first())
    }
}

/// The number of trailing characters that are whitespace.
pub open spec fn trailing_ws(s: Seq<char>) -> nat
    decreases s.len(),
{
    if s.len() == 0 || !crate::lexer::char_is_whitespace(s.last()) {
        0
    } else {
        1 + trailing_ws(s.drop_last())
    }
}

pub proof fn lemma_leading_ws(s: Seq<char>)
    ensures
        leading_ws(s) <= s.len(),
        forall|k: int| 0 <= k < leading_ws(s) ==> crate::lexer::char_is_whitespace(#[trigger] s[k]),
        leading_ws(s) < s.len() ==> !crate::lexer::char_is_whitespace(s[leading_ws(s) as int]),
    decreases s.len(),
{
    if s.len() > 0 && crate::lexer::char_is_whitespace(s[0]) {
        lemma_leading_ws(s.drop_first());
        assert forall|k: int| 0 <= k < leading_ws(s) implies crate::lexer::char_is_whitespace(
            #[trigger] s[k],
        ) by {
            if k > 0 {
                assert(s[k] == s.drop_first()[k - 1]);
            }
        }
    }
}

pub proof fn lemma_trailing_ws(s: Seq<char>)
    ensures
        trailing_ws(s) <= s.len(),
        forall|k: int|
            s.len() - trailing_ws(s) <= k < s.len() ==> crate::lexer::char_is_whitespace(#[trigger] s[k]),
        trailing_ws(s) < s.len() ==> !crate::lexer::char_is_whitespace(
            s[s.len() - trailing_ws(s) - 1],
        ),
    decreases s.len(),
{
    if s.len() > 0 && crate::lexer::char_is_whitespace(s.last()) {
        lemma_trailing_ws(s.drop_last());
        assert forall|k: int|
            s.len() - trailing_ws(s) <= k < s.len() implies crate::lexer::char_is_whitespace(
            #[trigger] s[k],
        ) by {
            if k < s.len() - 1 {
                assert(s[k] == s.drop_last()[k]);
            }
        }
    }
}

/// Without leading whitespace (`str::trim_start`).
pub open spec fn spec_trim_start(s: Seq<char>) -> Seq<char> {
    s.subrange(leading_ws(s) as int, s.len() as int)
}

/// Without trailing whitespace (`str::trim_end`).
pub open spec fn spec_trim_end(s: Seq<char>) -> Seq<char> {
    s.subrange(0, s.len() - trailing_ws(s))
}

/// Without leading or trailing whitespace (`str::trim`).
pub open spec fn spec_trim(s: Seq<char>) -> Seq<char> {
    spec_trim_end(spec_trim_start(s))
}

pub fn trim_start_chars(t: &[char]) -> (r: Vec<char>)
    ensures
        r@ == spec_trim_start(t@),
{
    proof {
        lemma_leading_ws(t@);
    }
    let mut k: usize = 0;
    while k < t.len() && crate::lexer::is_whitespace(t[k])
        invariant
            k <= t@.len(),
            k <= leading_ws(t@),
            forall|j: int| 0 <= j < leading_ws(t@) ==> crate::lexer::char_is_whitespace(#[trigger] t@[j]),
            leading_ws(t@) < t@.len() ==> !crate::lexer::char_is_whitespace(t@[leading_ws(t@) as int]),
            leading_ws(t@) <= t@.len(),
        decreases t@.len() - k,
    {
        k = k + 1;
    }
    sub_chars(t, k, t.len())
}

pub fn trim_end_chars(t: &[char]) -> (r: Vec<char>)
    ensures
        r@ == spec_trim_end(t@),
{
    proof {
        lemma_trailing_ws(t@);
    }
    let mut k: usize = t.len();
    while k > 0 && crate::lexer::is_whitespace(t[k - 1])
        invariant
            k <= t@.len(),
            t@.len() - k <= trailing_ws(t@),
            forall|j: int|
                t@.len() - trailing_ws(t@) <= j < t@.len() ==> crate::lexer::char_is_whitespace(#[trigger] t@[j]),
            trailing_ws(t@) < t@.len() ==> !crate::lexer::char_is_whitespace(
                t@[t@.len() - trailing_ws(t@) - 1],
            ),
            trailing_ws(t@) <= t@.len(),
        decreases k,
    {
        k = k - 1;
    }
    sub_chars(t, 0, k)
}

pub fn trim_chars(t: &[char]) -> (r: Vec<char>)
    ensures
        r@ == spec_trim(t@),
{
    let s = trim_start_chars(t);
    trim_end_chars(&s)
}

/// The lines of a text (`str::lines`).
pub fn lines_of(t: &[char]) -> (r: Vec<Vec<char>>)
    ensures
        r@.len() == spec_lines(t@).len(),
        forall|k: int| 0 <= k < r@.len() ==> (#[trigger] r@[k])@ == spec_lines(t@)[k],
{
    let mut r: Vec<Vec<char>> = Vec::new();
    let mut start: usize = 0;
    assert(t@.subrange(0, t@.len() as int) =~= t@);
    assert(r@.map_values(|v: Vec<char>| v@) =~= Seq::<Seq<char>>::empty());
    while start < t.len()
        invariant
            start <= t@.len(),
            spec_lines(t@) =~= r@.map_values(|v: Vec<char>| v@) + spec_lines(
                t@.subrange(start as int, t@.len() as int),
            ),
        decreases t@.len() - start,
    {
        let ghost rest = t@.subrange(start as int, t@.len() as int);
        let mut i = start;
        while i < t.len() && t[i] != '\n'
            invariant
                start <= i <= t@.len(),
                rest == t@.subrange(start as int, t@.len() as int),
                crate::lexer::line_end(rest, 0) == crate::lexer::line_end(rest, i - start),
            decreases t@.len() - i,
        {
            assert(rest[i - start] == t@[i as int]);
            i = i + 1;
        }
        proof {
            if i < t@.len() {
                assert(rest[i - start] == '\n');
            }
        }
        assert(crate::lexer::line_end(rest, 0) == i - start);
        let mut line = sub_chars(t, start, i);
        if i < t.len() && line.len() > 0 && line[line.len() - 1] == '\r' {
            line.pop();
        }
        assert(rest.subrange(0, i - start) =~= t@.subrange(start as int, i as int));
        let ghost prev = r@;
        r.push(line);
        if i < t.len() {
            assert(rest.subrange(i - start + 1, rest.len() as int) =~= t@.subrange(
                i + 1,
                t@.len() as int,
            ));
            assert(r@.map_values(|v: Vec<char>| v@) =~= prev.map_values(|v: Vec<char>| v@).push(line@));
            start = i + 1;
        } else {
            assert(r@.map_values(|v: Vec<char>| v@) =~= prev.map_values(|v: Vec<char>| v@).push(line@));
            assert(line@ =~= rest);
            start = t.len();
            assert(t@.subrange(start as int, t@.len() as int) =~= Seq::<char>::empty());
        }
    }
    assert(t@.subrange(start as int, t@.len() as int) =~= Seq::<char>::empty());
    assert forall|k: int| 0 <= k < r@.len() implies (#[trigger] r@[k])@ == spec_lines(t@)[k] by {
        assert(r@.map_values(|v: Vec<char>| v@)[k] == r@[k]@);
    }
    r
}

} // verus!

verus! {

/// The length of the run of non-whitespace characters that starts `s`.
pub open spec fn word_len(s: Seq<char>) -> nat
    decreases s.len(),
{
    if s.len() == 0 || crate::lexer::char_is_whitespace(s[0]) {
        0
    } else {
        1 + word_len(s.drop_first())
    }
}

/// The whitespace-separated words of `s`, in order (`str::split_whitespace`).
pub open spec fn spec_words(s: Seq<char>) -> Seq<Seq<char>>
    decreases s.len(),
{
    if s.len() == 0 {
        Seq::empty()
    } else if crate::lexer::char_is_whitespace(s[0]) {
        spec_words(s.drop_first())
    } else {
        proof {
            lemma_word_len_bound(s);
        }
        seq![s.subrange(0, word_len(s) as int)] + spec_words(
            s.subrange(word_len(s) as int, s.len() as int),
        )
    }
}

/// A word is no longer than the text, and not empty where the text starts
/// with a non-whitespace character.
pub proof fn lemma_word_len_bound(s: Seq<char>)
    ensures
        word_len(s) <= s.len(),
        s.len() > 0 && !crate::lexer::char_is_whitespace(s[0]) ==> word_len(s) >= 1,
    decreases s.len(),
{
    if s.len() > 0 && !crate::lexer::char_is_whitespace(s[0]) {
        lemma_word_len_bound(s.drop_first());
    }
}

/// A run of `n` non-whitespace characters that ends the text or stands
/// before whitespace is the word that starts it.
pub proof fn lemma_word_len_exact(s: Seq<char>, n: nat)
    requires
        n <= s.len(),
        forall|m: int| 0 <= m < n ==> !crate::lexer::char_is_whitespace(#[trigger] s[m]),
        n == s.len() || crate::lexer::char_is_whitespace(s[n as int]),
    ensures
        word_len(s) == n,
    decreases n,
{
    if n > 0 {
        let t = s.drop_first();
        assert forall|m: int| 0 <= m < n - 1 implies !crate::lexer::char_is_whitespace(
            #[trigger] t[m],
        ) by {
            assert(t[m] == s[m + 1]);
        }
        if n < s.len() {
            assert(t[n - 1] == s[n as int]);
        }
        lemma_word_len_exact(t, (n - 1) as nat);
    }
}

/// The whitespace-separated words of a text (`str::split_whitespace`).
pub fn split_whitespace_chars(t: &[char]) -> (r: Vec<Vec<char>>)
    ensures
        r@.len() == spec_words(t@).len(),
        forall|k: int| 0 <= k < r@.len() ==> (#[trigger] r@[k])@ == spec_words(t@)[k],
{
    let mut r: Vec<Vec<char>> = Vec::new();
    let ghost mut acc: Seq<Seq<char>> = Seq::empty();
    let mut i: usize = 0;
    assert(t@.subrange(0, t@.len() as int) =~= t@);
    while i < t.len()
        invariant
            i <= t@.len(),
            r@.len() == acc.len(),
            forall|k: int| 0 <= k < r@.len() ==> (#[trigger] r@[k])@ == acc[k],
            acc + spec_words(t@.subrange(i as int, t@.len() as int)) == spec_words(t@),
        decreases t@.len() - i,
    {
        let ghost rest = t@.subrange(i as int, t@.len() as int);
        if crate::lexer::is_whitespace(t[i]) {
            assert(rest.drop_first() =~= t@.subrange(i + 1, t@.len() as int));
            i = i + 1;
        } else {
            let start = i;
            while i < t.len() && !crate::lexer::is_whitespace(t[i])
                invariant
                    start <= i <= t@.len(),
                    forall|m: int| start <= m < i ==> !crate::lexer::char_is_whitespace(
                        #[trigger] t@[m],
                    ),
                decreases t@.len() - i,
            {
                i = i + 1;
            }
            proof {
                assert forall|m: int| 0 <= m < i - start implies !crate::lexer::char_is_whitespace(
                    #[trigger] rest[m],
                ) by {
                    assert(rest[m] == t@[start + m]);
                }
                if i < t@.len() {
                    assert(rest[i - start] == t@[i as int]);
                }
                lemma_word_len_exact(rest, (i - start) as nat);
                assert(rest.subrange(0, i - start) =~= t@.subrange(start as int, i as int));
                assert(rest.subrange(i - start, rest.len() as int) =~= t@.subrange(
                    i as int,
                    t@.len() as int,
                ));
            }
            let w = sub_chars(t, start, i);
            r.push(w);
            proof {
                let old_acc = acc;
                acc = acc.push(w@);
                assert(old_acc + spec_words(rest) =~= acc + spec_words(
                    t@.subrange(i as int, t@.len() as int),
                ));
            }
        }
    }
    assert(t@.subrange(i as int, t@.len() as int) =~= Seq::<char>::empty());
    assert(acc =~= spec_words(t@));
    r
}

/// `n` spaces.
pub open spec fn spaces(n: nat) -> Seq<char> {
    Seq::new(n, |_i: int| ' ')
}

/// `n` copies of two spaces.
pub open spec fn indent_text(n: nat) -> Seq<char> {
    Seq::new(2 * n, |_i: int| ' ')
}

/// Appends `n` spaces.
pub fn push_spaces(out: &mut Vec<char>, n: usize)
    ensures
        final(out)@ == old(out)@ + spaces(n as nat),
{
    let mut k: usize = 0;
    while k < n
        invariant
            k <= n,
            out@ == old(out)@ + spaces(k as nat),
        decreases n - k,
    {
        out.push(' ');
        k = k + 1;
        assert(out@ =~= old(out)@ + spaces(k as nat));
    }
}

} // verus!
