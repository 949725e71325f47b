use javafmt::bench::{
    CorpusCandidate, CorpusDecision, corpus_after_check, corpus_first_check, corpus_is_fallback,
    parse_positive_usize, parse_positive_usize_setting,
};

#[test]
fn rejects_zero_for_positive_usize() {
    assert_eq!(
        parse_positive_usize("JAVAFMT_BENCH_RUNS", "0"),
        Err(String::from("JAVAFMT_BENCH_RUNS must be >= 1"))
    );
}

#[test]
fn accepts_positive_count_with_optional_plus() {
    assert_eq!(parse_positive_usize("RUNS", "12"), Ok(12));
    assert_eq!(parse_positive_usize("RUNS", "+7"), Ok(7));
}

#[test]
fn rejects_text_that_is_no_count() {
    assert_eq!(
        parse_positive_usize("RUNS", "x1"),
        Err(String::from("RUNS must be a positive integer, got \"x1\""))
    );
    assert!(parse_positive_usize("RUNS", "").is_err());
    assert!(parse_positive_usize("RUNS", "+").is_err());
    assert!(parse_positive_usize("RUNS", "-1").is_err());
}

#[test]
fn rejects_count_that_overflows() {
    let too_big = format!("{}0", usize::MAX);
    assert_eq!(
        parse_positive_usize("RUNS", &too_big),
        Err(format!("RUNS must be a positive integer, got \"{too_big}\""))
    );
    assert_eq!(parse_positive_usize("RUNS", &usize::MAX.to_string()), Ok(usize::MAX));
}

#[test]
fn corpus_search_tries_the_named_directory_alone() {
    assert_eq!(corpus_first_check(true), CorpusDecision::Check(CorpusCandidate::Explicit));
    assert_eq!(
        corpus_after_check(CorpusCandidate::Explicit, true),
        CorpusDecision::Use(CorpusCandidate::Explicit)
    );
    assert_eq!(corpus_after_check(CorpusCandidate::Explicit, false), CorpusDecision::ExplicitMissing);
}

#[test]
fn corpus_search_falls_back_to_fixtures() {
    assert_eq!(corpus_first_check(false), CorpusDecision::Check(CorpusCandidate::Preferred));
    assert_eq!(
        corpus_after_check(CorpusCandidate::Preferred, true),
        CorpusDecision::Use(CorpusCandidate::Preferred)
    );
    assert_eq!(
        corpus_after_check(CorpusCandidate::Preferred, false),
        CorpusDecision::Check(CorpusCandidate::Fallback)
    );
    assert_eq!(
        corpus_after_check(CorpusCandidate::Fallback, true),
        CorpusDecision::Use(CorpusCandidate::Fallback)
    );
    assert_eq!(corpus_after_check(CorpusCandidate::Fallback, false), CorpusDecision::NoneFound);
    assert!(corpus_is_fallback(CorpusCandidate::Fallback));
    assert!(!corpus_is_fallback(CorpusCandidate::Preferred));
    assert!(!corpus_is_fallback(CorpusCandidate::Explicit));
}

#[test]
fn reads_a_setting_without_surrounding_whitespace() {
    assert_eq!(parse_positive_usize_setting("N", "  12 \n"), Ok(12));
    assert_eq!(parse_positive_usize_setting("N", " 0 "), Err("N must be >= 1".to_string()));
    assert_eq!(
        parse_positive_usize_setting("N", " x "),
        Err("N must be a positive integer, got \"x\"".to_string())
    );
}
