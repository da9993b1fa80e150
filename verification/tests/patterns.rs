use subdo::pattern::{
    Compilation, IgnoredEntry, IgnoredPattern, Pattern, PatternError,
};

fn raw(texts: &[&str]) -> IgnoredPattern {
    let mut patterns: IgnoredPattern = IgnoredPattern::default();
    for text in texts {
        patterns.push(Pattern::new(text).unwrap());
    }
    patterns
}

fn texts(patterns: &IgnoredPattern) -> Vec<String> {
    match patterns {
        IgnoredPattern::Compiled(pattern) => vec![pattern.as_str().to_string()],
        IgnoredPattern::Raw(all) => all.iter().map(|p| p.as_str().to_string()).collect(),
    }
}

#[test]
fn pattern_matches_anywhere_in_the_name() {
    let pattern: Pattern = Pattern::new("tar[a-g]et").unwrap();
    assert_eq!(pattern.as_str(), "tar[a-g]et");
    assert!(pattern.is_match("my-target-2"));
    assert!(!pattern.is_match("tarzet"));
}

#[test]
fn pattern_that_is_none_is_invalid() {
    match Pattern::new("a(") {
        Err(PatternError::Invalid(text)) => assert_eq!(text, "a("),
        _ => panic!("expected an invalid pattern"),
    }
}

#[test]
fn entry_without_mark_is_no_pattern() {
    assert!(IgnoredEntry::pattern(b"target").is_none());
    assert!(IgnoredEntry::pattern(b"").is_none());
    assert!(IgnoredEntry::pattern_text(b"a#b").is_none());
}

#[test]
fn entry_with_mark_is_a_pattern() {
    match IgnoredEntry::pattern(b"#^tar") {
        Some(Ok(IgnoredEntry::Pattern(pattern))) => {
            assert_eq!(pattern.as_str(), "^tar");
            assert!(pattern.is_match("target"));
            assert!(!pattern.is_match("guitar"));
        },
        _ => panic!("expected a pattern"),
    }
}

#[test]
fn entry_with_mark_alone_is_the_empty_pattern() {
    match IgnoredEntry::pattern(b"#") {
        Some(Ok(IgnoredEntry::Pattern(pattern))) => assert_eq!(pattern.as_str(), ""),
        _ => panic!("expected a pattern"),
    }
}

#[test]
fn entry_with_a_bad_pattern_is_an_error() {
    match IgnoredEntry::pattern(b"#[") {
        Some(Err(PatternError::Invalid(text))) => assert_eq!(text, "["),
        _ => panic!("expected an error"),
    }
}

#[test]
fn pattern_text_is_decoded_with_replacements() {
    assert_eq!(IgnoredEntry::pattern_text(&[b'#', b'a', 0xff]), Some("a\u{fffd}".to_string()));
}

#[test]
fn compilation_outcomes_become_entries() {
    let compiled = IgnoredEntry::from_compilation(
        "x".to_string(),
        Compilation::Compiled(Pattern::new("x").unwrap()),
    );
    assert!(matches!(compiled, Ok(IgnoredEntry::Pattern(_))));
    let rejected = IgnoredEntry::from_compilation("x".to_string(), Compilation::Rejected);
    assert!(matches!(rejected, Err(PatternError::Invalid(text)) if text == "x"));
    let lost = IgnoredEntry::from_compilation("x".to_string(), Compilation::Lost);
    assert!(matches!(lost, Err(PatternError::Miscompilation(text)) if text == "x"));
}

#[test]
fn pattern_errors_in_words() {
    assert_eq!(
        PatternError::Invalid("a(".to_string()).message(),
        "the pattern (a() is invalid"
    );
    assert_eq!(
        PatternError::Miscompilation("a".to_string()).message(),
        "the pattern (a) could not compile"
    );
}

#[test]
fn no_pattern_matches_nothing() {
    assert!(!IgnoredPattern::default().is_match("a"));
    assert!(!IgnoredPattern::default().is_match(""));
    let compiled: IgnoredPattern = IgnoredPattern::default().compiled();
    assert!(matches!(compiled, IgnoredPattern::Compiled(_)));
    assert!(!compiled.is_match("a"));
}

#[test]
fn compiled_is_the_alternation_of_what_is_not_empty() {
    let compiled: IgnoredPattern = raw(&["^a", "", "b$"]).compiled();
    assert_eq!(texts(&compiled), ["^a|b$"]);
    assert!(matches!(compiled, IgnoredPattern::Compiled(_)));
}

#[test]
fn empty_pattern_matches_all_until_compiled() {
    assert!(raw(&[""]).is_match("anything"));
    assert!(!raw(&[""]).compiled().is_match("anything"));
}

#[test]
fn compiling_changes_no_verdict() {
    let all: [&str; 7] = ["^a+$", "(b|c)d", "[|]", "e\\|f", "(?:g)", "(?i:h)", "(?i)k"];
    for name in ["a", "aaa", "ab", "bd", "BD", "xcdx", "|", "e|f", "ef", "", "d", "g", "G", "H", "K"] {
        assert_eq!(raw(&all).compiled().is_match(name), raw(&all).is_match(name), "{name:?}");
    }
}

#[test]
fn flags_reach_past_their_pattern_once_compiled() {
    assert!(!raw(&["(?i)a", "b"]).is_match("B"));
    assert!(raw(&["(?i)a", "b"]).compiled().is_match("B"));
}

#[test]
fn flags_stay_in_their_group_once_compiled() {
    let all: [&str; 7] = [
        "(?:(?i)a)",
        "[(]\\((?:(?i)c)",
        "((?s)d.)",
        "(?P<n>(?i)e)",
        "(?:(?x)f g # )\n)",
        "[[:digit:]](?:(?i)h)",
        "b",
    ];
    for name in [
        "A", "B", "b", "((C", "((c", "(C", "d\n", "D\n", "E", "fg", "f g", "FG", "1H", "1h", "H", "x",
    ] {
        assert_eq!(raw(&all).compiled().is_match(name), raw(&all).is_match(name), "{name:?}");
    }
    let compiled: IgnoredPattern = raw(&all).compiled();
    assert_eq!(texts(&compiled).len(), 1);
    assert!(!compiled.is_match("B") && !compiled.is_match("FG") && !compiled.is_match("D\n"));
    assert!(compiled.is_match("((C") && compiled.is_match("fg") && compiled.is_match("1H"));
}

#[test]
fn characters_stay_whole_once_compiled() {
    let all: [&str; 4] = ["\\B\\z", "\u{e9}b", "\\b{start-half}\u{fc}", "(?m:^x)"];
    for name in ["a\u{e9}b", "\u{e9}", "", "\u{fc}", "a\u{fc}", "-", "y\nx", "\u{e9}\nx", "a"] {
        assert_eq!(raw(&all).compiled().is_match(name), raw(&all).is_match(name), "{name:?}");
    }
    assert!(raw(&["\\B", "\u{e9}b"]).compiled().is_match("a\u{e9}b"));
}

#[test]
fn single_bytes_stay_apart_once_compiled() {
    let all: [&str; 6] =
        ["(?-u:q)", "(?-u:\\bw)", "(?-u:\\b{end}\u{fc})", "\u{e9}b", "a?-u:", "(?i-u:\u{e9})z"];
    for name in [
        "q", "a\u{e9}b", "w", "\u{e9}w", "aw", "a\u{fc}", "-\u{fc}", "-u:", "\u{c9}z", "\u{e9}Z", "x",
    ] {
        assert_eq!(raw(&all).compiled().is_match(name), raw(&all).is_match(name), "{name:?}");
    }
    assert!(raw(&all).compiled().is_match("\u{e9}w"));
    assert!(raw(&all).compiled().is_match("a\u{fc}"));
    assert!(!raw(&all).compiled().is_match("-\u{fc}"));
}

#[test]
fn ascii_names_have_no_inside_once_compiled() {
    let all: [&str; 3] = ["x(?-u:\\B)y", "(?-u:\\B)-", "\\b{start-half}(?-u:\\b{end-half})b"];
    for name in ["xy", "x y", "-", "a-", "--", "b", "ab", " b", ""] {
        assert_eq!(raw(&all).compiled().is_match(name), raw(&all).is_match(name), "{name:?}");
    }
    assert!(raw(&all).compiled().is_match("xy") && !raw(&all).compiled().is_match("a-"));
}

#[test]
fn bytes_inside_a_character_can_hide_a_match_once_compiled() {
    let all: [&str; 2] = ["(?-u:\\B)", "\u{e9}b"];
    assert!(!raw(&all[..1]).is_match("a\u{e9}b"));
    assert!(raw(&all[1..]).is_match("a\u{e9}b"));
    assert!(raw(&all).is_match("a\u{e9}b"));
    let compiled: IgnoredPattern = raw(&all).compiled();
    assert_eq!(texts(&compiled), ["(?-u:\\B)|\u{e9}b"]);
    assert!(!compiled.is_match("a\u{e9}b"));
}

#[test]
fn patterns_that_do_not_go_together_stay_apart() {
    let group: [&str; 2] = ["(?P<n>a)", "(?P<n>b)"];
    let kept: IgnoredPattern = raw(&group).compiled();
    assert!(matches!(kept, IgnoredPattern::Raw(_)));
    assert_eq!(texts(&kept), group);
    assert!(kept.is_match("b"));
}

#[test]
fn compiling_twice_is_compiling_once() {
    let twice: IgnoredPattern = raw(&["a", "b"]).compiled().compiled();
    assert_eq!(texts(&twice), ["a|b"]);
}

#[test]
fn pushing_onto_a_compiled_one_keeps_both() {
    let mut patterns: IgnoredPattern = raw(&["a", "b"]).compiled();
    patterns.push(Pattern::new("c").unwrap());
    assert!(matches!(patterns, IgnoredPattern::Raw(_)));
    assert_eq!(texts(&patterns), ["a|b", "c"]);
    assert!(patterns.is_match("b") && patterns.is_match("c") && !patterns.is_match("d"));
}

#[test]
fn replaced_takes_the_expression_or_stays() {
    let taken: IgnoredPattern = raw(&["a"]).replaced(Pattern::new("z"));
    assert_eq!(texts(&taken), ["z"]);
    let kept: IgnoredPattern = raw(&["a"]).replaced(Pattern::new("("));
    assert_eq!(texts(&kept), ["a"]);
}
