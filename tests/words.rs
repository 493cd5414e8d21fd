use wordcount_bench::words::{is_whitespace, Matcher};

#[test]
fn matching_is_exact_and_case_sensitive() {
    let m = Matcher::new(&vec!["the".to_string(), "The".to_string()]);
    assert_eq!(m.count_in("THE the The tHe them other the."), 2);
    let only_lower = Matcher::new(&vec!["the".to_string()]);
    assert_eq!(only_lower.count_in("The cat sat on the mat"), 1);
}

#[test]
fn matcher_checks_whole_words() {
    let m = Matcher::new(&vec!["ab".to_string()]);
    assert!(m.matches(&vec!['a', 'b']));
    assert!(!m.matches(&vec!['a']));
    assert!(!m.matches(&vec!['a', 'b', 'c']));
    assert!(!m.matches(&vec![]));
}

#[test]
fn empty_matcher_counts_nothing() {
    let m = Matcher::new(&vec![]);
    assert_eq!(m.count_in("the the"), 0);
}

#[test]
fn words_split_at_any_white_space() {
    let m = Matcher::new(&vec!["the".to_string()]);
    assert_eq!(m.count_in("the\tthe\nthe\r\nthe\u{3000}the\u{a0}the"), 6);
    assert_eq!(m.count_in("  the   "), 1);
    assert_eq!(m.count_in("the\u{200b}the"), 0);
    assert_eq!(m.count_in("line one the\nthe line two\n"), 2);
}

#[test]
fn unicode_white_space_set() {
    for c in ['\t', '\n', '\u{b}', '\u{c}', '\r', ' ', '\u{85}', '\u{a0}', '\u{1680}', '\u{2000}', '\u{200a}', '\u{2028}', '\u{2029}', '\u{202f}', '\u{205f}', '\u{3000}'] {
        assert!(is_whitespace(c), "{:?}", c);
        assert!(c.is_whitespace());
    }
    for c in ['a', '\u{200b}', '\u{180e}', '_', '\u{0}', '\u{feff}'] {
        assert!(!is_whitespace(c), "{:?}", c);
        assert_eq!(c.is_whitespace(), is_whitespace(c));
    }
}

#[test]
fn non_ascii_variants_match() {
    let m = Matcher::new(&vec!["été".to_string(), "Été".to_string()]);
    assert_eq!(m.count_in("Été, été été Été"), 3);
}
