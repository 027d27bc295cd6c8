//! Pattern elements and the parser that produces them.
use vstd::prelude::*;
use vstd::string::*;

verus! {

/// A predefined character class.
#[derive(Clone, Copy, Debug, PartialEq, Eq, Structural)]
pub enum CharClass {
    /// `\d`: an ASCII digit `0`-`9`.
    Digit,
    /// `\w`: an ASCII letter or digit, or `_`.
    Word,
}

/// `c` is an ASCII digit.
pub open spec fn is_digit(c: char) -> bool {
    '0' <= c && c <= '9'
}

/// `c` is an ASCII letter, an ASCII digit or an underscore.
pub open spec fn is_word(c: char) -> bool {
    ||| 'a' <= c && c <= 'z'
    ||| 'A' <= c && c <= 'Z'
    ||| is_digit(c)
    ||| c == '_'
}

impl CharClass {
    /// The character `c` belongs to this class.
    pub open spec fn spec_matches(self, c: char) -> bool {
        match self {
            CharClass::Digit => is_digit(c),
            CharClass::Word => is_word(c),
        }
    }

    /// Whether `ch` belongs to this class.
    pub fn matches_char(&self, ch: char) -> (r: bool)
        ensures
            r == self.spec_matches(ch),
    {
        match self {
            CharClass::Digit => '0' <= ch && ch <= '9',
            CharClass::Word => ('a' <= ch && ch <= 'z') || ('A' <= ch && ch <= 'Z') || ('0' <= ch
                && ch <= '9') || ch == '_',
        }
    }
}

/// A zero-width position assertion.
#[derive(Clone, Copy, Debug, PartialEq, Eq, Structural)]
pub enum AnchorType {
    /// `^`: the start of the text.
    StartOfString,
    /// `$`: the end of the text.
    EndOfString,
}

/// A repetition rule applied to a single-character element.
#[derive(Clone, Copy, Debug, PartialEq, Eq, Structural)]
pub enum Quantifier {
    /// `+`: one or more consecutive matches, greedy.
    Plus,
}

/// Why a pattern could not be compiled.
#[derive(Clone, Copy, Debug, PartialEq, Eq, Structural)]
pub enum ParseError {
    /// The pattern ends where a further character is required (after `\`).
    UnexpectedEndOfInput,
    /// A `[` group is never closed by `]`.
    UnclosedGroup,
    /// A quantifier follows an anchor, which consumes nothing to repeat.
    QuantifiedAnchor,
}

/// One compiled unit of a pattern.
pub enum PatternElement {
    /// A literal character like 'a', 'b', 'c', ...
    Literal(char),
    /// A predefined character class.
    CharacterClass(CharClass),
    /// A custom character group like `[abc]` or `[^abc]`.
    CharacterGroup { chars: Vec<char>, negated: bool },
    /// A position anchor that does not consume characters.
    Anchor(AnchorType),
    /// A single-character element with a repetition rule.
    Quantified { element: Box<PatternElement>, quantifier: Quantifier },
}

/// An ordered sequence of pattern elements.
pub struct Pattern {
    pub elements: Vec<PatternElement>,
}

/// The meaning of an element that consumes exactly one character.
pub ghost enum Atom {
    /// Exactly this character.
    Literal(char),
    /// A character of this class.
    Class(CharClass),
    /// A character of the set (`false`) or outside it (`true`).
    Group(Seq<char>, bool),
}

/// The meaning of a pattern element.
pub ghost enum Token {
    /// One character accepted by the atom.
    Single(Atom),
    /// A position condition that consumes nothing.
    Anchor(AnchorType),
    /// A run of characters accepted by the atom, as the quantifier allows.
    Repeat(Atom, Quantifier),
}

impl Atom {
    /// The character `c` is accepted by this atom.
    pub open spec fn accepts(self, c: char) -> bool {
        match self {
            Atom::Literal(l) => l == c,
            Atom::Class(k) => k.spec_matches(c),
            Atom::Group(cs, negated) => cs.contains(c) != negated,
        }
    }
}

impl PatternElement {
    /// The element consumes exactly one character and carries no quantifier.
    pub open spec fn is_atom(&self) -> bool {
        ||| self is Literal
        ||| self is CharacterClass
        ||| self is CharacterGroup
    }

    /// A quantifier wraps a single-character element only.
    pub open spec fn wf(&self) -> bool {
        match self {
            PatternElement::Quantified { element, .. } => element.is_atom(),
            _ => true,
        }
    }

    /// The meaning of a single-character element.
    pub open spec fn own_atom(&self) -> Atom {
        match self {
            PatternElement::Literal(c) => Atom::Literal(*c),
            PatternElement::CharacterClass(k) => Atom::Class(*k),
            PatternElement::CharacterGroup { chars, negated } => Atom::Group(chars@, *negated),
            _ => Atom::Group(Seq::empty(), false),
        }
    }

    /// The character test of a consuming element, quantified or not.
    pub open spec fn atom(&self) -> Atom {
        match self {
            PatternElement::Quantified { element, .. } => element.own_atom(),
            _ => self.own_atom(),
        }
    }
}

/// The anchor `a` holds at position `pos` of a text of length `len`.
pub open spec fn anchor_holds(a: AnchorType, pos: int, len: int) -> bool {
    match a {
        AnchorType::StartOfString => pos == 0,
        AnchorType::EndOfString => pos == len,
    }
}

/// Whether `chars` holds `ch`.
fn group_contains(chars: &Vec<char>, ch: char) -> (r: bool)
    ensures
        r == chars@.contains(ch),
{
    let mut i: usize = 0;
    while i < chars.len()
        invariant
            i <= chars@.len(),
            forall|k: int| 0 <= k < i ==> chars@[k] != ch,
        decreases chars@.len() - i,
    {
        if chars[i] == ch {
            return true;
        }
        i = i + 1;
    }
    false
}

impl PatternElement {
    /// Whether the character test of this element accepts `ch`; a quantified
    /// element tests with the element it wraps. Anchors test no characters.
    pub fn matches_char(&self, ch: char) -> (r: bool)
        requires
            !(self is Anchor),
            self.wf(),
        ensures
            r == self.atom().accepts(ch),
        decreases self,
    {
        match self {
            PatternElement::Literal(literal_ch) => *literal_ch == ch,
            PatternElement::CharacterClass(char_class) => char_class.matches_char(ch),
            PatternElement::CharacterGroup { chars, negated } => {
                let contains = group_contains(chars, ch);
                if *negated {
                    !contains
                } else {
                    contains
                }
            },
            PatternElement::Quantified { element, .. } => element.matches_char(ch),
            PatternElement::Anchor(_) => false,
        }
    }

    /// Whether this element is an anchor.
    pub fn is_anchor(&self) -> (r: bool)
        ensures
            r == (self is Anchor),
    {
        matches!(self, PatternElement::Anchor(_))
    }

    /// Whether this element carries a quantifier.
    pub fn is_quantified(&self) -> (r: bool)
        ensures
            r == (self is Quantified),
    {
        matches!(self, PatternElement::Quantified { .. })
    }

    /// Whether this anchor holds at `text_pos` of a text of `text_len` characters.
    pub fn check_anchor(&self, text_pos: usize, text_len: usize) -> (r: bool)
        requires
            self is Anchor,
        ensures
            r == anchor_holds(self->Anchor_0, text_pos as int, text_len as int),
    {
        match self {
            PatternElement::Anchor(AnchorType::StartOfString) => text_pos == 0,
            PatternElement::Anchor(AnchorType::EndOfString) => text_pos == text_len,
            _ => false,
        }
    }
}

impl View for PatternElement {
    type V = Token;

    open spec fn view(&self) -> Token {
        match self {
            PatternElement::Anchor(a) => Token::Anchor(*a),
            PatternElement::Quantified { element, quantifier } => Token::Repeat(
                element.own_atom(),
                *quantifier,
            ),
            _ => Token::Single(self.own_atom()),
        }
    }
}

impl View for Pattern {
    type V = Seq<Token>;

    open spec fn view(&self) -> Seq<Token> {
        self.elements@.map_values(|e: PatternElement| e@)
    }
}

impl Pattern {
    /// Every element is well formed.
    pub open spec fn wf(&self) -> bool {
        forall|i: int| 0 <= i < self.elements@.len() ==> #[trigger] self.elements@[i].wf()
    }
}


/// The quantifier that the symbol `c` denotes, if any.
pub open spec fn quantifier_of(c: char) -> Option<Quantifier> {
    if c == '+' {
        Some(Quantifier::Plus)
    } else {
        None
    }
}

/// The position of the first `]` at or after `k` in `s`, or `s.len()` if there is none.
pub open spec fn group_close(s: Seq<char>, k: int) -> int
    decreases s.len() - k,
{
    if k >= s.len() {
        s.len() as int
    } else if s[k] == ']' {
        k
    } else {
        group_close(s, k + 1)
    }
}

/// `group_close` finds the first `]` at or after `k`.
pub proof fn lemma_group_close(s: Seq<char>, k: int)
    requires
        0 <= k <= s.len(),
    ensures
        k <= group_close(s, k) <= s.len(),
        group_close(s, k) < s.len() ==> s[group_close(s, k)] == ']',
        forall|m: int| k <= m < group_close(s, k) ==> s[m] != ']',
    decreases s.len() - k,
{
    if k < s.len() && s[k] != ']' {
        lemma_group_close(s, k + 1);
    }
}

/// The meaning of the escape `\e`.
pub open spec fn escape_atom(e: char) -> Atom {
    if e == 'd' {
        Atom::Class(CharClass::Digit)
    } else if e == 'w' {
        Atom::Class(CharClass::Word)
    } else {
        Atom::Literal(e)
    }
}

/// The element written at position `i` of `s` (without a quantifier after
/// it), and the position just past it.
pub open spec fn element_at(s: Seq<char>, i: int) -> Result<(Token, int), ParseError> {
    let c = s[i];
    if c == '^' {
        Ok((Token::Anchor(AnchorType::StartOfString), i + 1))
    } else if c == '$' {
        Ok((Token::Anchor(AnchorType::EndOfString), i + 1))
    } else if c == '\\' {
        if i + 1 < s.len() {
            Ok((Token::Single(escape_atom(s[i + 1])), i + 2))
        } else {
            Err(ParseError::UnexpectedEndOfInput)
        }
    } else if c == '[' {
        let negated = i + 1 < s.len() && s[i + 1] == '^';
        let start = if negated {
            i + 2
        } else {
            i + 1
        };
        let close = group_close(s, start);
        if close < s.len() {
            Ok((Token::Single(Atom::Group(s.subrange(start, close), negated)), close + 1))
        } else {
            Err(ParseError::UnclosedGroup)
        }
    } else {
        Ok((Token::Single(Atom::Literal(c)), i + 1))
    }
}

/// An element that parses ends past its start and within `s`.
pub proof fn lemma_element_advances(s: Seq<char>, i: int)
    requires
        0 <= i < s.len(),
    ensures
        element_at(s, i) matches Ok((_, j)) ==> i < j <= s.len(),
{
    if s[i] == '[' {
        let start = if i + 1 < s.len() && s[i + 1] == '^' {
            i + 2
        } else {
            i + 1
        };
        lemma_group_close(s, start);
    }
}

/// The elements written in `s` from position `i` on, or the first error met.
pub open spec fn parse_from(s: Seq<char>, i: int) -> Result<Seq<Token>, ParseError>
    decreases s.len() - i,
{
    if i < 0 || i >= s.len() {
        Ok(Seq::empty())
    } else {
        proof {
            lemma_element_advances(s, i);
        }
        match element_at(s, i) {
            Err(e) => Err(e),
            Ok((t, j)) => {
                if j < s.len() && quantifier_of(s[j]) is Some {
                    match t {
                        Token::Single(a) => match parse_from(s, j + 1) {
                            Ok(rest) => Ok(seq![Token::Repeat(a, quantifier_of(s[j])->0)] + rest),
                            Err(e) => Err(e),
                        },
                        _ => Err(ParseError::QuantifiedAnchor),
                    }
                } else {
                    match parse_from(s, j) {
                        Ok(rest) => Ok(seq![t] + rest),
                        Err(e) => Err(e),
                    }
                }
            },
        }
    }
}

/// The compiled form of the pattern `s`.
pub open spec fn parse_pattern(s: Seq<char>) -> Result<Seq<Token>, ParseError> {
    parse_from(s, 0)
}


/// The characters of `s`, in order.
pub(crate) fn collect_chars(s: &str) -> (r: Vec<char>)
    ensures
        r@ == s@,
{
    let n = s.unicode_len();
    let mut chars: Vec<char> = Vec::new();
    let mut i: usize = 0;
    while i < n
        invariant
            n == s@.len(),
            i <= n,
            chars@ == s@.subrange(0, i as int),
        decreases n - i,
    {
        chars.push(s.get_char(i));
        i = i + 1;
        proof {
            assert(chars@ =~= s@.subrange(0, i as int));
        }
    }
    proof {
        assert(chars@ =~= s@);
    }
    chars
}

/// Reads a pattern left to right, one element at a time.
pub struct RegexParser {
    input: Vec<char>,
    position: usize,
}

impl RegexParser {
    /// The pattern being read.
    pub closed spec fn spec_input(&self) -> Seq<char> {
        self.input@
    }

    /// The position of the next character to read.
    pub closed spec fn spec_position(&self) -> int {
        self.position as int
    }

    /// A parser positioned at the start of `regex`.
    pub fn new(regex: &str) -> (r: Self)
        ensures
            r.spec_input() == regex@,
            r.spec_position() == 0,
    {
        RegexParser { input: collect_chars(regex), position: 0 }
    }

    /// The next character, without consuming it; `None` at the end.
    fn peek(&self) -> (r: Option<char>)
        ensures
            r == (if self.position < self.input@.len() {
                Some(self.input@[self.position as int])
            } else {
                None::<char>
            }),
    {
        if self.position < self.input.len() {
            return Some(self.input[self.position]);
        }
        None
    }

    /// The next character; an error at the end of the pattern.
    fn current_char(&self) -> (r: Result<char, ParseError>)
        ensures
            r == (if self.position < self.input@.len() {
                Ok(self.input@[self.position as int])
            } else {
                Err::<char, ParseError>(ParseError::UnexpectedEndOfInput)
            }),
    {
        if self.position < self.input.len() {
            Ok(self.input[self.position])
        } else {
            Err(ParseError::UnexpectedEndOfInput)
        }
    }

    /// Steps past the next character.
    fn advance(&mut self)
        requires
            old(self).position < old(self).input.len(),
        ensures
            final(self).input == old(self).input,
            final(self).position == old(self).position + 1,
    {
        self.position = self.position + 1;
    }

    /// What reading one element at the current position promises.
    pub closed spec fn element_read(
        old_parser: &Self,
        new_parser: &Self,
        r: Result<PatternElement, ParseError>,
    ) -> bool {
        &&& new_parser.input == old_parser.input
        &&& match element_at(old_parser.input@, old_parser.position as int) {
            Ok((t, j)) => r matches Ok(e) && e@ == t && !(e is Quantified) && new_parser.position
                == j,
            Err(err) => r == Err::<PatternElement, ParseError>(err),
        }
    }

    /// Reads `\d`, `\w` or an escaped literal.
    fn parse_escape_sequence(&mut self) -> (r: Result<PatternElement, ParseError>)
        requires
            old(self).position < old(self).input.len(),
            old(self).input@[old(self).position as int] == '\\',
        ensures
            Self::element_read(old(self), final(self), r),
    {
        self.advance();  // the backslash
        let ch = match self.current_char() {
            Ok(c) => c,
            Err(e) => return Err(e),
        };
        self.advance();
        match ch {
            'd' => Ok(PatternElement::CharacterClass(CharClass::Digit)),
            'w' => Ok(PatternElement::CharacterClass(CharClass::Word)),
            _ => Ok(PatternElement::Literal(ch)),
        }
    }

    /// Reads a group `[...]` or `[^...]`.
    fn parse_character_group(&mut self) -> (r: Result<PatternElement, ParseError>)
        requires
            old(self).position < old(self).input.len(),
            old(self).input@[old(self).position as int] == '[',
        ensures
            Self::element_read(old(self), final(self), r),
    {
        let ghost s = self.input@;
        let ghost i = self.position as int;
        self.advance();  // the opening bracket
        let negated = if self.position < self.input.len() && self.input[self.position] == '^' {
            self.advance();
            true
        } else {
            false
        };
        let ghost start = self.position as int;
        proof {
            lemma_group_close(s, start);
        }
        let mut chars: Vec<char> = Vec::new();
        while self.position < self.input.len() && self.input[self.position] != ']'
            invariant
                self.input@ == s,
                0 <= start <= self.position <= s.len(),
                self.input == old(self).input,
                old(self).input@ == s,
                old(self).position == i,
                s[i] == '[',
                negated == (i + 1 < s.len() && s[i + 1] == '^'),
                start == (if negated {
                    i + 2
                } else {
                    i + 1
                }),
                chars@ == s.subrange(start, self.position as int),
                group_close(s, start) >= self.position,
                forall|m: int| start <= m < group_close(s, start) ==> s[m] != ']',
                group_close(s, start) < s.len() ==> s[group_close(s, start)] == ']',
                group_close(s, start) <= s.len(),
            decreases s.len() - self.position,
        {
            chars.push(self.input[self.position]);
            self.advance();
            proof {
                assert(chars@ =~= s.subrange(start, self.position as int));
            }
        }
        if self.position >= self.input.len() {
            return Err(ParseError::UnclosedGroup);
        }
        self.advance();  // the closing bracket
        Ok(PatternElement::CharacterGroup { chars, negated })
    }

    /// Reads one element, without a quantifier after it.
    fn parse_element(&mut self) -> (r: Result<PatternElement, ParseError>)
        requires
            old(self).position < old(self).input.len(),
        ensures
            Self::element_read(old(self), final(self), r),
    {
        let ch = self.input[self.position];
        match ch {
            '^' => {
                self.advance();
                Ok(PatternElement::Anchor(AnchorType::StartOfString))
            },
            '$' => {
                self.advance();
                Ok(PatternElement::Anchor(AnchorType::EndOfString))
            },
            '\\' => self.parse_escape_sequence(),
            '[' => self.parse_character_group(),
            _ => {
                self.advance();
                Ok(PatternElement::Literal(ch))
            },
        }
    }

    /// Reads the rest of the pattern into elements. Compilation is all or
    /// nothing: the first malformed element ends it with its error.
    pub fn parse(&mut self) -> (r: Result<Pattern, ParseError>)
        requires
            old(self).spec_position() <= old(self).spec_input().len(),
        ensures
            final(self).spec_input() == old(self).spec_input(),
            match r {
                Ok(p) => {
                    &&& parse_from(old(self).spec_input(), old(self).spec_position()) == Ok::<
                        Seq<Token>,
                        ParseError,
                    >(p@)
                    &&& p.wf()
                    &&& final(self).spec_position() == final(self).spec_input().len()
                },
                Err(e) => parse_from(old(self).spec_input(), old(self).spec_position()) == Err::<
                    Seq<Token>,
                    ParseError,
                >(e),
            },
    {
        let ghost s = self.input@;
        let ghost i0 = self.position as int;
        let mut elements: Vec<PatternElement> = Vec::new();
        while self.position < self.input.len()
            invariant
                self.input@ == s,
                old(self).input@ == s,
                old(self).position == i0,
                i0 <= self.position <= s.len(),
                0 <= i0,
                parse_from(s, i0) == (match parse_from(s, self.position as int) {
                    Ok(rest) => Ok(elements@.map_values(|e: PatternElement| e@) + rest),
                    Err(e) => Err::<Seq<Token>, ParseError>(e),
                }),
                forall|k: int| 0 <= k < elements@.len() ==> #[trigger] elements@[k].wf(),
            decreases s.len() - self.position,
        {
            let ghost i = self.position as int;
            proof {
                lemma_element_advances(s, i);
            }
            let mut element = match self.parse_element() {
                Ok(e) => e,
                Err(e) => return Err(e),
            };
            if let Some(next_char) = self.peek() {
                if let Some(quantifier) = self.parse_quantifier(next_char) {
                    if element.is_anchor() {
                        return Err(ParseError::QuantifiedAnchor);
                    }
                    self.advance();
                    element = PatternElement::Quantified { element: Box::new(element), quantifier };
                }
            }
            let ghost before = elements@.map_values(|e: PatternElement| e@);
            elements.push(element);
            proof {
                assert(elements@.map_values(|e: PatternElement| e@) =~= before.push(element@));
                let ghost j = self.position as int;
                match parse_from(s, j) {
                    Ok(rest) => {
                        assert(before + seq![element@] + rest =~= before.push(element@) + rest);
                        assert(before + (seq![element@] + rest) =~= before + seq![element@] + rest);
                    },
                    Err(_) => {},
                }
            }
        }
        proof {
            assert(elements@.map_values(|e: PatternElement| e@) + Seq::<Token>::empty()
                =~= elements@.map_values(|e: PatternElement| e@));
        }
        Ok(Pattern { elements })
    }

    /// The quantifier that `ch` denotes, if any.
    pub fn parse_quantifier(&self, ch: char) -> (r: Option<Quantifier>)
        ensures
            r == quantifier_of(ch),
    {
        match ch {
            '+' => Some(Quantifier::Plus),
            _ => None,
        }
    }
}

} // verus!
