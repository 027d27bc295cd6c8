//! The backtracking matcher and the meaning of a match.
use vstd::prelude::*;
use crate::parser::{
    anchor_holds, collect_chars, parse_pattern, AnchorType, Atom, ParseError, Pattern,
    PatternElement, Quantifier, RegexParser, Token,
};

verus! {

/// Every character of `t` in `[i, k)` is accepted by `a`.
pub open spec fn run_of(a: Atom, t: Seq<char>, i: int, k: int) -> bool {
    forall|m: int| i <= m < k ==> a.accepts(#[trigger] t[m])
}

/// The tokens of `p` from index `j` on match a stretch of `t` that starts at
/// position `i`; the stretch may end anywhere in `t`.
pub open spec fn matches_at(p: Seq<Token>, t: Seq<char>, i: int, j: int) -> bool
    decreases p.len() - j,
{
    if j < 0 || j >= p.len() {
        true
    } else {
        match p[j] {
            Token::Anchor(a) => anchor_holds(a, i, t.len() as int) && matches_at(p, t, i, j + 1),
            Token::Single(a) => 0 <= i < t.len() && a.accepts(t[i]) && matches_at(p, t, i + 1, j + 1),
            Token::Repeat(a, Quantifier::Plus) => exists|k: int|
                i < k <= t.len() && #[trigger] run_of(a, t, i, k) && matches_at(p, t, k, j + 1),
        }
    }
}

/// Unfolds the meaning of a `+` token at index `j`.
proof fn lemma_plus_unfold(p: Seq<Token>, t: Seq<char>, i: int, j: int, a: Atom)
    requires
        0 <= j < p.len(),
        p[j] == Token::Repeat(a, Quantifier::Plus),
    ensures
        matches_at(p, t, i, j) == exists|k: int|
            i < k <= t.len() && #[trigger] run_of(a, t, i, k) && matches_at(p, t, k, j + 1),
{
}

/// The pattern `p` occurs somewhere in `t`.
pub open spec fn pattern_matches(p: Seq<Token>, t: Seq<char>) -> bool {
    exists|s: int| 0 <= s <= t.len() && #[trigger] matches_at(p, t, s, 0)
}


/// A compiled pattern, ready to be tested against texts.
pub struct RegexMatcher {
    pattern: Pattern,
}

impl View for RegexMatcher {
    type V = Seq<Token>;

    closed spec fn view(&self) -> Seq<Token> {
        self.pattern@
    }
}

impl RegexMatcher {
    #[verifier::type_invariant]
    spec fn inv(&self) -> bool {
        self.pattern.wf()
    }

    /// A matcher for an already compiled pattern.
    pub fn new(pattern: Pattern) -> (r: Self)
        requires
            pattern.wf(),
        ensures
            r@ == pattern@,
    {
        RegexMatcher { pattern }
    }

    /// Compiles `pattern`; fails with the first malformed element's error.
    pub fn compile_regex(pattern: &str) -> (r: Result<RegexMatcher, ParseError>)
        ensures
            match r {
                Ok(m) => parse_pattern(pattern@) == Ok::<Seq<Token>, ParseError>(m@),
                Err(e) => parse_pattern(pattern@) == Err::<Seq<Token>, ParseError>(e),
            },
    {
        let mut parser = RegexParser::new(pattern);
        match parser.parse() {
            Ok(parsed_pattern) => Ok(RegexMatcher::new(parsed_pattern)),
            Err(e) => Err(e),
        }
    }

    /// Whether the pattern occurs anywhere in `text`.
    pub fn is_match(&self, text: &str) -> (r: bool)
        ensures
            r == pattern_matches(self@, text@),
    {
        proof {
            use_type_invariant(self);
        }
        let chars = collect_chars(text);
        let ghost p = self@;
        let ghost t = chars@;
        let n = self.pattern.elements.len();
        if n > 0 && matches!(
            &self.pattern.elements[0],
            PatternElement::Anchor(AnchorType::StartOfString)
        ) {
            // a leading start anchor holds at offset 0 only
            let r = self.match_at_position(&chars, 0);
            proof {
                if !r {
                    assert forall|s: int| 0 <= s <= t.len() implies !#[trigger] matches_at(
                        p,
                        t,
                        s,
                        0,
                    ) by {
                        assert(p[0] == self.pattern.elements@[0]@);
                    }
                }
            }
            return r;
        }
        let mut start_pos: usize = 0;
        loop
            invariant
                self.pattern.wf(),
                p == self@,
                t == chars@,
                t == text@,
                start_pos <= t.len(),
                forall|s: int| 0 <= s < start_pos ==> !#[trigger] matches_at(p, t, s, 0),
            decreases t.len() - start_pos,
        {
            if self.match_at_position(&chars, start_pos) {
                assert(matches_at(p, t, start_pos as int, 0));
                return true;
            }
            if start_pos >= chars.len() {
                return false;
            }
            start_pos = start_pos + 1;
        }
    }

    /// Whether the pattern matches a stretch of `chars` that starts at `start_pos`.
    fn match_at_position(&self, chars: &Vec<char>, start_pos: usize) -> (r: bool)
        requires
            self.pattern.wf(),
        ensures
            r == (if start_pos <= chars@.len() {
                matches_at(self@, chars@, start_pos as int, 0)
            } else {
                self@.len() == 0
            }),
    {
        if start_pos > chars.len() {
            return self.pattern.elements.len() == 0;
        }
        self.match_elements_at_position(chars, start_pos, 0)
    }

    /// Whether the elements from `pattern_pos` on match a stretch of `chars`
    /// that starts at `text_pos`.
    fn match_elements_at_position(
        &self,
        chars: &Vec<char>,
        text_pos: usize,
        pattern_pos: usize,
    ) -> (r: bool)
        requires
            self.pattern.wf(),
            text_pos <= chars@.len(),
            pattern_pos <= self.pattern.elements@.len(),
        ensures
            r == matches_at(self@, chars@, text_pos as int, pattern_pos as int),
        decreases self.pattern.elements@.len() - pattern_pos, 1nat,
    {
        if pattern_pos >= self.pattern.elements.len() {
            return true;
        }
        let current_element = &self.pattern.elements[pattern_pos];
        proof {
            assert(self@[pattern_pos as int] == current_element@);
            assert(current_element.wf());
        }
        match current_element {
            PatternElement::Anchor(_) => {
                if current_element.check_anchor(text_pos, chars.len()) {
                    self.match_elements_at_position(chars, text_pos, pattern_pos + 1)
                } else {
                    false
                }
            },
            PatternElement::Quantified { quantifier: Quantifier::Plus, .. } => {
                self.match_one_or_more(chars, text_pos, pattern_pos)
            },
            _ => {
                if text_pos >= chars.len() {
                    return false;
                }
                if current_element.matches_char(chars[text_pos]) {
                    self.match_elements_at_position(chars, text_pos + 1, pattern_pos + 1)
                } else {
                    false
                }
            },
        }
    }

    /// Matches a `+` element at `pattern_pos` greedily: the longest run of
    /// accepted characters first, then shorter runs down to one character.
    fn match_one_or_more(
        &self,
        chars: &Vec<char>,
        text_pos: usize,
        pattern_pos: usize,
    ) -> (r: bool)
        requires
            self.pattern.wf(),
            text_pos <= chars@.len(),
            pattern_pos < self.pattern.elements@.len(),
            self.pattern.elements@[pattern_pos as int] matches PatternElement::Quantified {
                quantifier: Quantifier::Plus,
                ..
            },
        ensures
            r == matches_at(self@, chars@, text_pos as int, pattern_pos as int),
        decreases self.pattern.elements@.len() - pattern_pos, 0nat,
    {
        let ghost p = self@;
        let ghost t = chars@;
        let element = &self.pattern.elements[pattern_pos];
        let ghost a = element.atom();
        proof {
            assert(p[pattern_pos as int] == element@);
            assert(element.wf());
            assert(element@ == Token::Repeat(a, Quantifier::Plus));
        }
        if text_pos >= chars.len() || !element.matches_char(chars[text_pos]) {
            return false;
        }
        let mut max_pos: usize = text_pos + 1;
        while max_pos < chars.len() && element.matches_char(chars[max_pos])
            invariant
                element.wf(),
                !(element is Anchor),
                element.atom() == a,
                t == chars@,
                text_pos < max_pos <= t.len(),
                run_of(a, t, text_pos as int, max_pos as int),
            decreases t.len() - max_pos,
        {
            max_pos = max_pos + 1;
        }
        let mut end: usize = max_pos;
        while end > text_pos
            invariant
                self.pattern.wf(),
                p == self@,
                t == chars@,
                text_pos <= end <= max_pos <= t.len(),
                pattern_pos < self.pattern.elements.len(),
                pattern_pos < p.len(),
                p[pattern_pos as int] == Token::Repeat(a, Quantifier::Plus),
                run_of(a, t, text_pos as int, max_pos as int),
                forall|k: int| end < k <= max_pos ==> !#[trigger] matches_at(p, t, k, pattern_pos + 1),
            decreases end,
        {
            if self.match_elements_at_position(chars, end, pattern_pos + 1) {
                assert(run_of(a, t, text_pos as int, end as int));
                return true;
            }
            end = end - 1;
        }
        proof {
            assert forall|k: int| text_pos < k <= t.len() && run_of(a, t, text_pos as int, k)
                implies !#[trigger] matches_at(p, t, k, pattern_pos + 1) by {
                if k > max_pos {
                    assert(a.accepts(t[max_pos as int]));
                }
            }
            lemma_plus_unfold(p, t, text_pos as int, pattern_pos as int, a);
        }
        false
    }
}

/// The pattern written as `pattern` compiles and occurs somewhere in `t`.
pub open spec fn text_matches(pattern: Seq<char>, t: Seq<char>) -> bool {
    match parse_pattern(pattern) {
        Ok(p) => pattern_matches(p, t),
        Err(_) => false,
    }
}

/// Compiles `pattern` and tests it against `input_line`; a pattern that does
/// not compile matches nothing.
pub fn match_pattern(input_line: &str, pattern: &str) -> (r: bool)
    ensures
        r == text_matches(pattern@, input_line@),
{
    match RegexMatcher::compile_regex(pattern) {
        Ok(matcher) => matcher.is_match(input_line),
        Err(_) => false,
    }
}

} // verus!
