use minigrep::{
    match_pattern, AnchorType, CharClass, ParseError, PatternElement, Quantifier, RegexMatcher,
    RegexParser,
};

fn error_of(pattern: &str) -> Option<ParseError> {
    RegexMatcher::compile_regex(pattern).err()
}

#[test]
fn single_literal_is_containment() {
    assert!(match_pattern("abxc", "x"));
    assert!(!match_pattern("abc", "x"));
    assert!(!match_pattern("", "x"));
    assert!(match_pattern("a+b", "+"));
    assert!(!match_pattern("ab", "+"));
}

#[test]
fn digit_class_needs_a_digit() {
    assert!(match_pattern("a9", "\\d"));
    assert!(!match_pattern("abc", "\\d"));
    assert!(!match_pattern("", "\\d"));
}

#[test]
fn word_class_accepts_letters_digits_underscore() {
    assert!(match_pattern("_", "\\w"));
    assert!(match_pattern("Z", "\\w"));
    assert!(match_pattern("7", "\\w"));
    assert!(!match_pattern("-+ !", "\\w"));
}

#[test]
fn group_and_negated_group_are_complementary() {
    for c in ["a", "b", "c", "d", "x", "]", "é"] {
        let positive = match_pattern(c, "[abc]");
        let negative = match_pattern(c, "[^abc]");
        assert_ne!(positive, negative);
    }
}

#[test]
fn empty_groups() {
    assert!(!match_pattern("abc", "[]"));
    assert!(match_pattern("a", "[^]"));
    assert!(!match_pattern("", "[^]"));
}

#[test]
fn start_anchor_requires_prefix() {
    assert!(match_pattern("logs", "^log"));
    assert!(!match_pattern("alog", "^log"));
    assert!(!match_pattern("", "^log"));
}

#[test]
fn end_anchor_requires_suffix() {
    assert!(match_pattern("hotdog", "dog$"));
    assert!(!match_pattern("doge", "dog$"));
}

#[test]
fn full_anchors_require_exact_text() {
    assert!(match_pattern("dog", "^dog$"));
    assert!(!match_pattern("dogs", "^dog$"));
    assert!(!match_pattern("adog", "^dog$"));
}

#[test]
fn one_or_more_backtracks() {
    assert!(match_pattern("aaa", "a+a"));
    assert!(!match_pattern("a", "a+a"));
    assert!(match_pattern("caat", "ca+t"));
    assert!(!match_pattern("ct", "ca+t"));
    assert!(match_pattern("x123y", "\\d+y"));
}

#[test]
fn question_mark_is_a_literal() {
    assert!(match_pattern("ca?t", "ca?t"));
    assert!(!match_pattern("ct", "ca?t"));
    assert!(!match_pattern("cat", "ca?t"));
    assert!(!match_pattern("", "a?"));
    assert!(!match_pattern("log?", "^?"));
    assert!(match_pattern("?x", "^?"));
    let mut parser = RegexParser::new("dogs?");
    let pattern = parser.parse().ok().unwrap();
    assert_eq!(pattern.elements.len(), 5);
    assert!(matches!(pattern.elements[4], PatternElement::Literal('?')));
}

#[test]
fn unclosed_group_fails() {
    assert_eq!(error_of("[abc"), Some(ParseError::UnclosedGroup));
    assert_eq!(error_of("["), Some(ParseError::UnclosedGroup));
    assert_eq!(error_of("[^"), Some(ParseError::UnclosedGroup));
    assert!(!match_pattern("abc", "[abc"));
}

#[test]
fn trailing_backslash_fails() {
    assert_eq!(error_of("ab\\"), Some(ParseError::UnexpectedEndOfInput));
    assert_eq!(error_of("\\"), Some(ParseError::UnexpectedEndOfInput));
}

#[test]
fn quantified_anchor_fails() {
    assert_eq!(error_of("^+a"), Some(ParseError::QuantifiedAnchor));
    assert_eq!(error_of("a$+"), Some(ParseError::QuantifiedAnchor));
    assert_eq!(error_of("a$?"), None);
}

#[test]
fn compiling_twice_agrees() {
    let first = RegexMatcher::compile_regex("c+a[^x]\\d$").ok().unwrap();
    let second = RegexMatcher::compile_regex("c+a[^x]\\d$").ok().unwrap();
    for text in ["", "cab1", "ccay9", "cax1", "c b2", "cat"] {
        assert_eq!(first.is_match(text), second.is_match(text));
    }
}

#[test]
fn escaped_characters_are_literals() {
    assert!(match_pattern("a+b", "a\\+b"));
    assert!(!match_pattern("aab", "a\\+b"));
    assert!(match_pattern("z", "\\z"));
    assert!(match_pattern("[x]", "\\[x"));
}

#[test]
fn empty_pattern_matches_every_text() {
    assert!(match_pattern("", ""));
    assert!(match_pattern("abc", ""));
}

#[test]
fn multibyte_characters_count_once() {
    assert!(match_pattern("café", "é$"));
    assert!(!match_pattern("café", "^caf.?é$"));
    assert!(match_pattern("caf.?é", "^caf.?é$"));
    assert!(!match_pattern("cafe", "é"));
    assert!(match_pattern("naïve", "^na[ïi]ve$"));
}

#[test]
fn parser_builds_elements() {
    let mut parser = RegexParser::new("^a+[^bc]\\d$");
    let pattern = parser.parse().ok().unwrap();
    assert_eq!(pattern.elements.len(), 5);
    assert!(matches!(pattern.elements[0], PatternElement::Anchor(AnchorType::StartOfString)));
    match &pattern.elements[1] {
        PatternElement::Quantified { element, quantifier } => {
            assert_eq!(*quantifier, Quantifier::Plus);
            assert!(matches!(**element, PatternElement::Literal('a')));
        }
        _ => panic!("expected a quantified element"),
    }
    match &pattern.elements[2] {
        PatternElement::CharacterGroup { chars, negated } => {
            assert_eq!(chars, &vec!['b', 'c']);
            assert!(*negated);
        }
        _ => panic!("expected a group"),
    }
    assert!(matches!(pattern.elements[3], PatternElement::CharacterClass(CharClass::Digit)));
    assert!(matches!(pattern.elements[4], PatternElement::Anchor(AnchorType::EndOfString)));
}

#[test]
fn parse_quantifier_symbols() {
    let parser = RegexParser::new("");
    assert_eq!(parser.parse_quantifier('+'), Some(Quantifier::Plus));
    assert_eq!(parser.parse_quantifier('?'), None);
    assert_eq!(parser.parse_quantifier('*'), None);
}

#[test]
fn element_queries() {
    let literal = PatternElement::Literal('q');
    let start = PatternElement::Anchor(AnchorType::StartOfString);
    let end = PatternElement::Anchor(AnchorType::EndOfString);
    let group = PatternElement::CharacterGroup { chars: vec!['x', 'y'], negated: true };
    let plus = PatternElement::Quantified {
        element: Box::new(PatternElement::CharacterClass(CharClass::Word)),
        quantifier: Quantifier::Plus,
    };
    assert!(literal.matches_char('q'));
    assert!(!literal.matches_char('r'));
    assert!(!group.matches_char('x'));
    assert!(group.matches_char('z'));
    assert!(plus.matches_char('_'));
    assert!(!plus.matches_char('.'));
    assert!(start.is_anchor() && !start.is_quantified());
    assert!(plus.is_quantified() && !plus.is_anchor());
    assert!(start.check_anchor(0, 3));
    assert!(!start.check_anchor(1, 3));
    assert!(end.check_anchor(3, 3));
    assert!(!end.check_anchor(2, 3));
}

#[test]
fn char_class_membership() {
    assert!(CharClass::Digit.matches_char('0'));
    assert!(CharClass::Digit.matches_char('9'));
    assert!(!CharClass::Digit.matches_char('a'));
    assert!(CharClass::Word.matches_char('a'));
    assert!(!CharClass::Word.matches_char('é'));
}

#[test]
fn matcher_from_parsed_pattern() {
    let mut parser = RegexParser::new("b\\w");
    let pattern = parser.parse().ok().unwrap();
    let matcher = RegexMatcher::new(pattern);
    assert!(matcher.is_match("abc"));
    assert!(!matcher.is_match("ab"));
}
