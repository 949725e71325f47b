//! Settings of the benchmark harness: a positive count read from text, and
//! the order in which the places of the benchmark corpus are tried.
use vstd::prelude::*;
use crate::text::{chars_of, push_str, spec_trim, string_of, trim_chars};

verus! {

/// An ASCII decimal digit.
pub open spec fn is_digit(c: char) -> bool {
    '0' <= c && c <= '9'
}

/// The value of decimal digits.
pub open spec fn digits_value(s: Seq<char>) -> nat
    decreases s.len(),
{
    if s.len() == 0 {
        0
    } else {
        10 * digits_value(s.drop_last()) + ((s.last() as u32) - ('0' as u32)) as nat
    }
}

/// The text without a leading `+`.
pub open spec fn sign_stripped(raw: Seq<char>) -> Seq<char> {
    if raw.len() > 0 && raw[0] == '+' {
        raw.drop_first()
    } else {
        raw
    }
}

/// Every character is a decimal digit.
pub open spec fn all_digits(s: Seq<char>) -> bool {
    forall|i: int| 0 <= i < s.len() ==> is_digit(#[trigger] s[i])
}

/// The `usize` that `str::parse` reads from the text: an optional `+`, then
/// one or more decimal digits whose value fits; `None` for any other text.
pub open spec fn parsed_usize(raw: Seq<char>) -> Option<nat> {
    let body = sign_stripped(raw);
    if body.len() == 0 || !all_digits(body) {
        None
    } else if digits_value(body) > usize::MAX {
        None
    } else {
        Some(digits_value(body))
    }
}

/// The text of a value as `{:?}` writes it for a string slice: in double
/// quotes, with quotes, backslashes and control characters escaped.
pub uninterp spec fn debug_str(s: Seq<char>) -> Seq<char>;

/// Calls std's `Debug` formatting of a string slice (`format!("{s:?}")`).
/// Its result is named `debug_str` of the slice: a function of the text
/// alone. Nothing more of the escaping is stated.
#[verifier::external_body]
fn debug_quoted(s: &str) -> (r: String)
    ensures
        r@ == debug_str(s@),
{
    format!("{s:?}")
}

proof fn lemma_digits_value_bound(s: Seq<char>, k: int)
    requires
        0 <= k < s.len(),
        forall|i: int| 0 <= i < s.len() ==> is_digit(#[trigger] s[i]),
    ensures
        digits_value(s.subrange(0, k)) <= digits_value(s.subrange(0, k + 1)),
{
    assert(s.subrange(0, k + 1).drop_last() =~= s.subrange(0, k));
    assert(s.subrange(0, k + 1).last() == s[k]);
}

proof fn lemma_digits_monotone(s: Seq<char>, k: int)
    requires
        0 <= k <= s.len(),
        forall|i: int| 0 <= i < s.len() ==> is_digit(#[trigger] s[i]),
    ensures
        digits_value(s.subrange(0, k)) <= digits_value(s),
    decreases s.len() - k,
{
    if k < s.len() {
        lemma_digits_value_bound(s, k);
        lemma_digits_monotone(s, k + 1);
    } else {
        assert(s.subrange(0, k) =~= s);
    }
}

/// Reads a `usize` as `str::parse` does (see `parsed_usize`).
pub fn parse_usize(raw: &[char]) -> (r: Option<usize>)
    ensures
        match r {
            Some(v) => parsed_usize(raw@) == Some(v as nat),
            None => parsed_usize(raw@) is None,
        },
{
    let start: usize = if raw.len() > 0 && raw[0] == '+' {
        1
    } else {
        0
    };
    let ghost body = sign_stripped(raw@);
    assert(body =~= raw@.subrange(start as int, raw@.len() as int));
    if start == raw.len() {
        return None;
    }
    let mut i = start;
    while i < raw.len()
        invariant
            start <= i <= raw@.len(),
            body =~= raw@.subrange(start as int, raw@.len() as int),
            body == sign_stripped(raw@),
            forall|j: int| 0 <= j < i - start ==> is_digit(#[trigger] body[j]),
        decreases raw@.len() - i,
    {
        if !(raw[i] >= '0' && raw[i] <= '9') {
            assert(body[i - start] == raw@[i as int]);
            assert(!is_digit(body[i - start]));
            assert(!all_digits(body));
            assert(parsed_usize(raw@) is None);
            return None;
        }
        i = i + 1;
    }
    let mut value: usize = 0;
    let mut k = start;
    assert(body.subrange(0, 0) =~= Seq::<char>::empty());
    while k < raw.len()
        invariant
            start <= k <= raw@.len(),
            body =~= raw@.subrange(start as int, raw@.len() as int),
            body == sign_stripped(raw@),
            forall|j: int| 0 <= j < body.len() ==> is_digit(#[trigger] body[j]),
            value == digits_value(body.subrange(0, k - start)),
        decreases raw@.len() - k,
    {
        let ghost pre = body.subrange(0, k - start + 1);
        assert(pre.drop_last() =~= body.subrange(0, k - start));
        assert(pre.last() == raw@[k as int]);
        let d = (raw[k] as u32 - '0' as u32) as usize;
        match value.checked_mul(10) {
            None => {
                proof {
                    lemma_digits_monotone(body, k - start + 1);
                    assert(digits_value(pre) > usize::MAX);
                    assert(parsed_usize(raw@) is None);
                }
                return None;
            },
            Some(m) => match m.checked_add(d) {
                None => {
                    proof {
                        lemma_digits_monotone(body, k - start + 1);
                    }
                    return None;
                },
                Some(v) => {
                    value = v;
                },
            },
        }
        k = k + 1;
    }
    assert(body.subrange(0, body.len() as int) =~= body);
    Some(value)
}

/// The message for a text that is no count.
pub open spec fn not_a_count_message(name: Seq<char>, raw: Seq<char>) -> Seq<char> {
    name + " must be a positive integer, got "@ + debug_str(raw)
}

/// The message for a zero count.
pub open spec fn zero_count_message(name: Seq<char>) -> Seq<char> {
    name + " must be >= 1"@
}

/// Reads a positive count: an error naming the setting when the text is no
/// `usize`, or when it is zero.
pub fn parse_positive_usize(name: &str, raw: &str) -> (r: Result<usize, String>)
    ensures
        match parsed_usize(raw@) {
            None => r matches Err(e) && e@ == not_a_count_message(name@, raw@),
            Some(v) => if v == 0 {
                r matches Err(e) && e@ == zero_count_message(name@)
            } else {
                r == Ok::<usize, String>(v as usize)
            },
        },
{
    let chars = chars_of(raw);
    match parse_usize(&chars) {
        None => {
            let mut message = chars_of(name);
            push_str(&mut message, " must be a positive integer, got ");
            let quoted = debug_quoted(raw);
            push_str(&mut message, quoted.as_str());
            Err(string_of(&message))
        },
        Some(value) => {
            if value == 0 {
                let mut message = chars_of(name);
                push_str(&mut message, " must be >= 1");
                Err(string_of(&message))
            } else {
                Ok(value)
            }
        },
    }
}

/// Reads a count from the value of a setting: the value without the
/// whitespace around it, read as `parse_positive_usize` reads it.
pub fn parse_positive_usize_setting(name: &str, value: &str) -> (r: Result<usize, String>)
    ensures
        match parsed_usize(spec_trim(value@)) {
            None => r matches Err(e) && e@ == not_a_count_message(name@, spec_trim(value@)),
            Some(v) => if v == 0 {
                r matches Err(e) && e@ == zero_count_message(name@)
            } else {
                r == Ok::<usize, String>(v as usize)
            },
        },
{
    let chars = chars_of(value);
    let trimmed = trim_chars(&chars);
    let text = string_of(&trimmed);
    parse_positive_usize(name, text.as_str())
}

/// A place where the benchmark corpus may be: the directory named by the
/// caller, `benches/corpus`, or the fallback `fixtures/java`.
#[derive(Debug, Clone, Copy, PartialEq, Eq, Structural)]
pub enum CorpusCandidate {
    Explicit,
    Preferred,
    Fallback,
}

/// What to do next while looking for the corpus: check a place, use it, or
/// give up because the named directory is missing or no place holds Java
/// files.
#[derive(Debug, Clone, Copy, PartialEq, Eq, Structural)]
pub enum CorpusDecision {
    Check(CorpusCandidate),
    Use(CorpusCandidate),
    ExplicitMissing,
    NoneFound,
}

/// The first place to check: the named directory when there is one, else
/// `benches/corpus`.
pub fn corpus_first_check(explicit_given: bool) -> (r: CorpusDecision)
    ensures
        r == if explicit_given {
            CorpusDecision::Check(CorpusCandidate::Explicit)
        } else {
            CorpusDecision::Check(CorpusCandidate::Preferred)
        },
{
    if explicit_given {
        CorpusDecision::Check(CorpusCandidate::Explicit)
    } else {
        CorpusDecision::Check(CorpusCandidate::Preferred)
    }
}

/// What follows the check of a place: a place that qualifies (the named
/// directory exists, or the directory holds Java files) is used; a missing
/// named directory is an error with no fallback; `benches/corpus` is
/// followed by `fixtures/java`, and that by giving up.
pub fn corpus_after_check(checked: CorpusCandidate, qualifies: bool) -> (r: CorpusDecision)
    ensures
        qualifies ==> r == CorpusDecision::Use(checked),
        !qualifies ==> r == match checked {
            CorpusCandidate::Explicit => CorpusDecision::ExplicitMissing,
            CorpusCandidate::Preferred => CorpusDecision::Check(CorpusCandidate::Fallback),
            CorpusCandidate::Fallback => CorpusDecision::NoneFound,
        },
{
    if qualifies {
        return CorpusDecision::Use(checked);
    }
    match checked {
        CorpusCandidate::Explicit => CorpusDecision::ExplicitMissing,
        CorpusCandidate::Preferred => CorpusDecision::Check(CorpusCandidate::Fallback),
        CorpusCandidate::Fallback => CorpusDecision::NoneFound,
    }
}

/// Only the fallback corpus is reported as a fallback.
pub fn corpus_is_fallback(used: CorpusCandidate) -> (r: bool)
    ensures
        r == (used == CorpusCandidate::Fallback),
{
    match used {
        CorpusCandidate::Fallback => true,
        _ => false,
    }
}

} // verus!
