//! Properties that relate the parser and the matcher.
use vstd::prelude::*;
use crate::matcher::{matches_at, pattern_matches, text_matches, RegexMatcher};
use crate::parser::{
    element_at, group_close, is_digit, lemma_element_advances, lemma_group_close, parse_from,
    parse_pattern, quantifier_of, AnchorType, Atom, CharClass, ParseError, Token,
};

verus! {

/// `\d` occurs in a text exactly when the text holds an ASCII digit.
pub proof fn digit_class_finds_digits(t: Seq<char>)
    ensures
        text_matches(seq!['\\', 'd'], t) <==> exists|i: int| 0 <= i < t.len() && is_digit(#[trigger] t[i]),
{
    let s = seq!['\\', 'd'];
    let p = seq![Token::Single(Atom::Class(CharClass::Digit))];
    assert(parse_from(s, 2) == Ok::<Seq<Token>, ParseError>(Seq::empty()));
    assert(p + Seq::<Token>::empty() =~= p);
    assert(parse_pattern(s) == Ok::<Seq<Token>, ParseError>(p));
    if exists|i: int| 0 <= i < t.len() && is_digit(#[trigger] t[i]) {
        let i = choose|i: int| 0 <= i < t.len() && is_digit(#[trigger] t[i]);
        assert(matches_at(p, t, i + 1, 1));
        assert(matches_at(p, t, i, 0));
    }
    if pattern_matches(p, t) {
        let i = choose|i: int| 0 <= i <= t.len() && #[trigger] matches_at(p, t, i, 0);
        assert(is_digit(t[i]));
    }
}


/// A single character other than `^`, `$`, `\` and `[` occurs in a text
/// exactly when the text holds that character.
pub proof fn single_literal_finds_char(c: char, t: Seq<char>)
    requires
        c != '^' && c != '$' && c != '\\' && c != '[',
    ensures
        text_matches(seq![c], t) <==> t.contains(c),
{
    let s = seq![c];
    let p = seq![Token::Single(Atom::Literal(c))];
    assert(parse_from(s, 1) == Ok::<Seq<Token>, ParseError>(Seq::empty()));
    assert(p + Seq::<Token>::empty() =~= p);
    assert(parse_pattern(s) == Ok::<Seq<Token>, ParseError>(p));
    if t.contains(c) {
        let i = choose|i: int| 0 <= i < t.len() && t[i] == c;
        assert(matches_at(p, t, i + 1, 1));
        assert(matches_at(p, t, i, 0));
    }
    if pattern_matches(p, t) {
        let i = choose|i: int| 0 <= i <= t.len() && #[trigger] matches_at(p, t, i, 0);
        assert(t[i] == c);
    }
}

/// On a one-character text, exactly one of `[abc]` and `[^abc]` matches.
pub proof fn group_and_negated_group_complement(c: char)
    ensures
        text_matches(seq!['[', 'a', 'b', 'c', ']'], seq![c]) != text_matches(
            seq!['[', '^', 'a', 'b', 'c', ']'],
            seq![c],
        ),
{
    let abc = seq!['a', 'b', 'c'];
    let t = seq![c];
    let s1 = seq!['[', 'a', 'b', 'c', ']'];
    let s2 = seq!['[', '^', 'a', 'b', 'c', ']'];
    let p1 = seq![Token::Single(Atom::Group(abc, false))];
    let p2 = seq![Token::Single(Atom::Group(abc, true))];
    reveal_with_fuel(group_close, 5);
    assert(group_close(s1, 1) == 4);
    assert(s1.subrange(1, 4) =~= abc);
    assert(parse_from(s1, 5) == Ok::<Seq<Token>, ParseError>(Seq::empty()));
    assert(p1 + Seq::<Token>::empty() =~= p1);
    assert(parse_pattern(s1) == Ok::<Seq<Token>, ParseError>(p1));
    assert(group_close(s2, 2) == 5);
    assert(s2.subrange(2, 5) =~= abc);
    assert(parse_from(s2, 6) == Ok::<Seq<Token>, ParseError>(Seq::empty()));
    assert(p2 + Seq::<Token>::empty() =~= p2);
    assert(parse_pattern(s2) == Ok::<Seq<Token>, ParseError>(p2));
    assert(!matches_at(p1, t, 1, 0));
    assert(!matches_at(p2, t, 1, 0));
    assert(matches_at(p1, t, 1, 1));
    assert(matches_at(p2, t, 1, 1));
    if abc.contains(c) {
        assert(matches_at(p1, t, 0, 0));
        assert(pattern_matches(p1, t));
    } else {
        assert(matches_at(p2, t, 0, 0));
        assert(pattern_matches(p2, t));
    }
}


/// `^log` matches exactly the texts that start with `log`.
pub proof fn start_anchor_matches_prefix(t: Seq<char>)
    ensures
        text_matches(seq!['^', 'l', 'o', 'g'], t) <==> (t.len() >= 3 && t.subrange(0, 3) == seq![
            'l',
            'o',
            'g',
        ]),
{
    let s = seq!['^', 'l', 'o', 'g'];
    let start = Token::Anchor(AnchorType::StartOfString);
    let lit_l = Token::Single(Atom::Literal('l'));
    let lit_o = Token::Single(Atom::Literal('o'));
    let lit_g = Token::Single(Atom::Literal('g'));
    let p = seq![start, lit_l, lit_o, lit_g];
    assert(parse_from(s, 4) == Ok::<Seq<Token>, ParseError>(Seq::empty()));
    assert(seq![lit_g] + Seq::<Token>::empty() =~= seq![lit_g]);
    assert(parse_from(s, 3) == Ok::<Seq<Token>, ParseError>(seq![lit_g]));
    assert(seq![lit_o] + seq![lit_g] =~= seq![lit_o, lit_g]);
    assert(parse_from(s, 2) == Ok::<Seq<Token>, ParseError>(seq![lit_o, lit_g]));
    assert(seq![lit_l] + seq![lit_o, lit_g] =~= seq![lit_l, lit_o, lit_g]);
    assert(parse_from(s, 1) == Ok::<Seq<Token>, ParseError>(seq![lit_l, lit_o, lit_g]));
    assert(seq![start] + seq![lit_l, lit_o, lit_g] =~= p);
    assert(parse_pattern(s) == Ok::<Seq<Token>, ParseError>(p));
    let log = seq!['l', 'o', 'g'];
    if t.len() >= 3 && t.subrange(0, 3) == log {
        assert(t[0] == log[0] && t[1] == log[1] && t[2] == log[2]);
        assert(matches_at(p, t, 3, 4));
        assert(matches_at(p, t, 2, 3));
        assert(matches_at(p, t, 1, 2));
        assert(matches_at(p, t, 0, 1));
        assert(matches_at(p, t, 0, 0));
    }
    if pattern_matches(p, t) {
        let i = choose|i: int| 0 <= i <= t.len() && #[trigger] matches_at(p, t, i, 0);
        assert(i == 0);
        assert(matches_at(p, t, 0, 1));
        assert(matches_at(p, t, 1, 2));
        assert(matches_at(p, t, 2, 3));
        assert(t.subrange(0, 3) =~= log);
    }
}

/// `dog$` matches exactly the texts that end with `dog`.
pub proof fn end_anchor_matches_suffix(t: Seq<char>)
    ensures
        text_matches(seq!['d', 'o', 'g', '$'], t) <==> (t.len() >= 3 && t.subrange(
            t.len() - 3,
            t.len() as int,
        ) == seq!['d', 'o', 'g']),
{
    let s = seq!['d', 'o', 'g', '$'];
    let end = Token::Anchor(AnchorType::EndOfString);
    let lit_d = Token::Single(Atom::Literal('d'));
    let lit_o = Token::Single(Atom::Literal('o'));
    let lit_g = Token::Single(Atom::Literal('g'));
    let p = seq![lit_d, lit_o, lit_g, end];
    assert(parse_from(s, 4) == Ok::<Seq<Token>, ParseError>(Seq::empty()));
    assert(seq![end] + Seq::<Token>::empty() =~= seq![end]);
    assert(parse_from(s, 3) == Ok::<Seq<Token>, ParseError>(seq![end]));
    assert(seq![lit_g] + seq![end] =~= seq![lit_g, end]);
    assert(parse_from(s, 2) == Ok::<Seq<Token>, ParseError>(seq![lit_g, end]));
    assert(seq![lit_o] + seq![lit_g, end] =~= seq![lit_o, lit_g, end]);
    assert(parse_from(s, 1) == Ok::<Seq<Token>, ParseError>(seq![lit_o, lit_g, end]));
    assert(seq![lit_d] + seq![lit_o, lit_g, end] =~= p);
    assert(parse_pattern(s) == Ok::<Seq<Token>, ParseError>(p));
    let dog = seq!['d', 'o', 'g'];
    let n = t.len() as int;
    if n >= 3 && t.subrange(n - 3, n) == dog {
        assert(t[n - 3] == dog[0] && t[n - 2] == dog[1] && t[n - 1] == dog[2]);
        assert(matches_at(p, t, n, 4));
        assert(matches_at(p, t, n, 3));
        assert(matches_at(p, t, n - 1, 2));
        assert(matches_at(p, t, n - 2, 1));
        assert(matches_at(p, t, n - 3, 0));
    }
    if pattern_matches(p, t) {
        let i = choose|i: int| 0 <= i <= t.len() && #[trigger] matches_at(p, t, i, 0);
        assert(matches_at(p, t, i + 1, 1));
        assert(matches_at(p, t, i + 2, 2));
        assert(matches_at(p, t, i + 3, 3));
        assert(i + 3 == n);
        assert(t.subrange(n - 3, n) =~= dog);
    }
}

/// `^dog$` matches the text `dog` and no other.
pub proof fn full_anchors_match_exact_text(t: Seq<char>)
    ensures
        text_matches(seq!['^', 'd', 'o', 'g', '$'], t) <==> t == seq!['d', 'o', 'g'],
{
    let s = seq!['^', 'd', 'o', 'g', '$'];
    let start = Token::Anchor(AnchorType::StartOfString);
    let end = Token::Anchor(AnchorType::EndOfString);
    let lit_d = Token::Single(Atom::Literal('d'));
    let lit_o = Token::Single(Atom::Literal('o'));
    let lit_g = Token::Single(Atom::Literal('g'));
    let p = seq![start, lit_d, lit_o, lit_g, end];
    assert(parse_from(s, 5) == Ok::<Seq<Token>, ParseError>(Seq::empty()));
    assert(seq![end] + Seq::<Token>::empty() =~= seq![end]);
    assert(parse_from(s, 4) == Ok::<Seq<Token>, ParseError>(seq![end]));
    assert(seq![lit_g] + seq![end] =~= seq![lit_g, end]);
    assert(parse_from(s, 3) == Ok::<Seq<Token>, ParseError>(seq![lit_g, end]));
    assert(seq![lit_o] + seq![lit_g, end] =~= seq![lit_o, lit_g, end]);
    assert(parse_from(s, 2) == Ok::<Seq<Token>, ParseError>(seq![lit_o, lit_g, end]));
    assert(seq![lit_d] + seq![lit_o, lit_g, end] =~= seq![lit_d, lit_o, lit_g, end]);
    assert(parse_from(s, 1) == Ok::<Seq<Token>, ParseError>(seq![lit_d, lit_o, lit_g, end]));
    assert(seq![start] + seq![lit_d, lit_o, lit_g, end] =~= p);
    assert(parse_pattern(s) == Ok::<Seq<Token>, ParseError>(p));
    let dog = seq!['d', 'o', 'g'];
    if t == dog {
        assert(matches_at(p, t, 3, 5));
        assert(matches_at(p, t, 3, 4));
        assert(matches_at(p, t, 2, 3));
        assert(matches_at(p, t, 1, 2));
        assert(matches_at(p, t, 0, 1));
        assert(matches_at(p, t, 0, 0));
    }
    if pattern_matches(p, t) {
        let i = choose|i: int| 0 <= i <= t.len() && #[trigger] matches_at(p, t, i, 0);
        assert(i == 0);
        assert(matches_at(p, t, 0, 1));
        assert(t[0] == 'd');
        assert(matches_at(p, t, 1, 2));
        assert(t[1] == 'o');
        assert(matches_at(p, t, 2, 3));
        assert(t[2] == 'g');
        assert(matches_at(p, t, 3, 4));
        assert(t.len() == 3);
        assert(t =~= dog);
    }
}

/// Appending a character keeps a `]` found at or after `k`.
proof fn lemma_group_close_extend(w: Seq<char>, b: char, k: int)
    requires
        0 <= k <= w.len(),
        group_close(w, k) < w.len(),
    ensures
        group_close(w.push(b), k) == group_close(w, k),
    decreases w.len() - k,
{
    if w[k] != ']' {
        lemma_group_close_extend(w, b, k + 1);
    }
}

/// Appending a character keeps an element that parses within `w`.
proof fn lemma_element_extend(w: Seq<char>, b: char, i: int)
    requires
        0 <= i < w.len(),
        element_at(w, i) is Ok,
    ensures
        element_at(w.push(b), i) == element_at(w, i),
{
    let w2 = w.push(b);
    if w[i] == '[' {
        let negated = i + 1 < w.len() && w[i + 1] == '^';
        let start = if negated {
            i + 2
        } else {
            i + 1
        };
        lemma_group_close(w, start);
        lemma_group_close_extend(w, b, start);
        let close = group_close(w, start);
        assert(w2.subrange(start, close) =~= w.subrange(start, close));
    }
}

/// Parsing from `i` reaches the end of `w` without error, so the backslash
/// after it stands alone.
proof fn lemma_trailing_backslash_from(w: Seq<char>, i: int)
    requires
        0 <= i <= w.len(),
        parse_from(w, i) is Ok,
    ensures
        parse_from(w.push('\\'), i) == Err::<Seq<Token>, ParseError>(
            ParseError::UnexpectedEndOfInput,
        ),
    decreases w.len() - i,
{
    let w2 = w.push('\\');
    if i < w.len() {
        lemma_element_advances(w, i);
        lemma_element_extend(w, '\\', i);
        let j = element_at(w, i)->Ok_0.1;
        if j < w.len() && quantifier_of(w[j]) is Some {
            lemma_trailing_backslash_from(w, j + 1);
        } else {
            lemma_trailing_backslash_from(w, j);
        }
    }
}

/// A pattern that ends in a lone `\` (one whose part before the backslash
/// compiles) fails with `UnexpectedEndOfInput`.
pub proof fn trailing_backslash_fails(w: Seq<char>)
    requires
        parse_pattern(w) is Ok,
    ensures
        parse_pattern(w.push('\\')) == Err::<Seq<Token>, ParseError>(
            ParseError::UnexpectedEndOfInput,
        ),
{
    lemma_trailing_backslash_from(w, 0);
}

/// Compiling one pattern twice gives matchers that agree on every text.
pub proof fn compile_is_deterministic(
    m1: RegexMatcher,
    m2: RegexMatcher,
    pattern: Seq<char>,
    t: Seq<char>,
)
    requires
        parse_pattern(pattern) == Ok::<Seq<Token>, ParseError>(m1@),
        parse_pattern(pattern) == Ok::<Seq<Token>, ParseError>(m2@),
    ensures
        pattern_matches(m1@, t) == pattern_matches(m2@, t),
{
}

} // verus!
