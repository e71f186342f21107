//! The lexer of the textual assembly surface.
//!
//! Assembly text is a sequence of bare words (mnemonics and label uses),
//! label definitions (a word directly followed by `:`) and unsigned numeric
//! literals, separated by whitespace, commas and line breaks. The whole
//! lexing relation is the specification function [`lex_spec`]: it yields the
//! token sequence of a text, or nothing where the text is not lexable — an
//! illegal character, a stray colon, or a numeric literal beyond `i16::MAX`.
//! [`Lexer::lex`] computes exactly that sequence.

use vstd::prelude::*;

use crate::parser::tokens::Token;
use crate::parser::tokens::TokenModel;
use crate::parser::tokens::TokenType;
use crate::parser::tokens::TokenTypeModel;

verus! {

/// The lexical class of one character.
#[derive(Debug, Copy, Clone, PartialEq, Eq, Structural)]
pub enum CharType {
    Letter,
    Num,
    Colon,
    Comma,
    WhiteSpace,
    Newline,
    Return,
    Tab,
    Illegal,
}

/// The class a character belongs to: ASCII letters, ASCII digits, the
/// punctuation and whitespace the surface knows, and illegal for everything
/// else.
pub open spec fn char_class(c: char) -> CharType {
    let v = c as u32;
    if (97 <= v && v <= 122) || (65 <= v && v <= 90) {
        CharType::Letter
    } else if 48 <= v && v <= 57 {
        CharType::Num
    } else if v == 58 {
        CharType::Colon
    } else if v == 44 {
        CharType::Comma
    } else if v == 32 {
        CharType::WhiteSpace
    } else if v == 10 {
        CharType::Newline
    } else if v == 13 {
        CharType::Return
    } else if v == 9 {
        CharType::Tab
    } else {
        CharType::Illegal
    }
}

/// Where the run of letters starting at `i` ends: the first position at or
/// after `i` that is past the end or holds a non-letter.
pub open spec fn letter_run_end(s: Seq<char>, i: int) -> int
    decreases s.len() - i,
{
    if i < 0 || i >= s.len() {
        i
    } else if char_class(s[i]) == CharType::Letter {
        letter_run_end(s, i + 1)
    } else {
        i
    }
}

/// Where the run of digits starting at `i` ends.
pub open spec fn digit_run_end(s: Seq<char>, i: int) -> int
    decreases s.len() - i,
{
    if i < 0 || i >= s.len() {
        i
    } else if char_class(s[i]) == CharType::Num {
        digit_run_end(s, i + 1)
    } else {
        i
    }
}

/// The numeric value of a digit character.
pub open spec fn digit_value(c: char) -> int
    recommends
        char_class(c) == CharType::Num,
{
    c as u32 - 48
}

/// The decimal value of a run of digit characters.
pub open spec fn digits_value(s: Seq<char>) -> int
    decreases s.len(),
{
    if s.len() == 0 {
        0
    } else {
        digits_value(s.drop_last()) * 10 + digit_value(s.last())
    }
}

/// A run end never moves backward, never leaves the text, and moves past at
/// least the first character when that character is of the run's class.
proof fn lemma_letter_run_end_bounds(s: Seq<char>, i: int)
    requires
        0 <= i <= s.len(),
    ensures
        i <= letter_run_end(s, i) <= s.len(),
        i < s.len() && char_class(s[i]) == CharType::Letter ==> i + 1 <= letter_run_end(s, i),
        letter_run_end(s, i) < s.len() ==> char_class(s[letter_run_end(s, i)]) != CharType::Letter,
        forall|k: int| i <= k < letter_run_end(s, i) ==> char_class(#[trigger] s[k])
            == CharType::Letter,
    decreases s.len() - i,
{
    if i < s.len() && char_class(s[i]) == CharType::Letter {
        lemma_letter_run_end_bounds(s, i + 1);
    }
}

/// As [`lemma_letter_run_end_bounds`], for digit runs.
proof fn lemma_digit_run_end_bounds(s: Seq<char>, i: int)
    requires
        0 <= i <= s.len(),
    ensures
        i <= digit_run_end(s, i) <= s.len(),
        i < s.len() && char_class(s[i]) == CharType::Num ==> i + 1 <= digit_run_end(s, i),
        digit_run_end(s, i) < s.len() ==> char_class(s[digit_run_end(s, i)]) != CharType::Num,
        forall|k: int| i <= k < digit_run_end(s, i) ==> char_class(#[trigger] s[k])
            == CharType::Num,
    decreases s.len() - i,
{
    if i < s.len() && char_class(s[i]) == CharType::Num {
        lemma_digit_run_end_bounds(s, i + 1);
    }
}

/// The tokens of the text from position `i` on, the current line number
/// given — or nothing where the text is not lexable from there: an illegal
/// character, a colon that does not close a label definition, or a numeric
/// literal beyond `i16::MAX`.
pub open spec fn lex_spec(s: Seq<char>, i: int, line: int) -> Option<Seq<TokenModel>>
    decreases s.len() - i
        when 0 <= i
        via lex_spec_decreases
{
    if i >= s.len() {
        Some(Seq::<TokenModel>::empty())
    } else {
        match char_class(s[i]) {
            CharType::Comma => lex_spec(s, i + 1, line),
            CharType::WhiteSpace => lex_spec(s, i + 1, line),
            CharType::Return => lex_spec(s, i + 1, line),
            CharType::Tab => lex_spec(s, i + 1, line),
            CharType::Newline => lex_spec(s, i + 1, line + 1),
            CharType::Colon => None,
            CharType::Illegal => None,
            CharType::Letter => {
                let j = letter_run_end(s, i);
                let word = s.subrange(i, j);
                if j < s.len() && char_class(s[j]) == CharType::Colon {
                    match lex_spec(s, j + 1, line) {
                        Some(rest) => Some(
                            seq![
                                TokenModel {
                                    token_type: TokenTypeModel::Identifier(word),
                                    line: line,
                                },
                            ] + rest,
                        ),
                        None => None,
                    }
                } else {
                    match lex_spec(s, j, line) {
                        Some(rest) => Some(
                            seq![TokenModel { token_type: TokenTypeModel::Str(word), line: line }]
                                + rest,
                        ),
                        None => None,
                    }
                }
            },
            CharType::Num => {
                let j = digit_run_end(s, i);
                let value = digits_value(s.subrange(i, j));
                if value > 0x7fff {
                    None
                } else {
                    match lex_spec(s, j, line) {
                        Some(rest) => Some(
                            seq![
                                TokenModel {
                                    token_type: TokenTypeModel::Num(value as i16),
                                    line: line,
                                },
                            ] + rest,
                        ),
                        None => None,
                    }
                }
            },
        }
    }
}

#[via_fn]
proof fn lex_spec_decreases(s: Seq<char>, i: int, line: int) {
    if 0 <= i < s.len() {
        lemma_letter_run_end_bounds(s, i);
        lemma_digit_run_end_bounds(s, i);
    }
}

/// The number of line breaks in the text from position `i` on.
pub open spec fn newlines_from(s: Seq<char>, i: int) -> int
    decreases s.len() - i,
{
    if i < 0 || i >= s.len() {
        0
    } else if char_class(s[i]) == CharType::Newline {
        1 + newlines_from(s, i + 1)
    } else {
        newlines_from(s, i + 1)
    }
}

/// A stretch of text without line breaks adds no lines.
proof fn lemma_newlines_skip(s: Seq<char>, a: int, b: int)
    requires
        0 <= a <= b <= s.len(),
        forall|k: int| a <= k < b ==> char_class(#[trigger] s[k]) != CharType::Newline,
    ensures
        newlines_from(s, a) == newlines_from(s, b),
    decreases b - a,
{
    if a < b {
        lemma_newlines_skip(s, a + 1, b);
    }
}

/// A run of digits has a non-negative decimal value.
proof fn lemma_digits_value_nonneg(s: Seq<char>)
    requires
        forall|k: int| 0 <= k < s.len() ==> char_class(#[trigger] s[k]) == CharType::Num,
    ensures
        digits_value(s) >= 0,
    decreases s.len(),
{
    if s.len() > 0 {
        lemma_digits_value_nonneg(s.drop_last());
    }
}

/// Dropping digits from the right never makes the decimal value larger.
proof fn lemma_digits_value_prefix(s: Seq<char>, m: int)
    requires
        0 <= m <= s.len(),
        forall|k: int| 0 <= k < s.len() ==> char_class(#[trigger] s[k]) == CharType::Num,
    ensures
        digits_value(s.take(m)) <= digits_value(s),
    decreases s.len() - m,
{
    if m < s.len() {
        lemma_digits_value_prefix(s, m + 1);
        let longer = s.take(m + 1);
        assert(longer.drop_last() =~= s.take(m));
        assert forall|k: int| 0 <= k < longer.len() implies char_class(#[trigger] longer[k])
            == CharType::Num by {
            assert(longer[k] == s[k]);
        }
        lemma_digits_value_nonneg(longer.drop_last());
        assert(digits_value(longer) == digits_value(s.take(m)) * 10 + digit_value(s[m]));
    } else {
        assert(s.take(m) =~= s);
    }
}

/// The lexer: a cursor over the source text, the current line number, and
/// the tokens read so far.
pub struct Lexer {
    source: String,
    index: usize,
    line: usize,
    pub tokens: Vec<Token>,
}

/// The mathematical view of the lexer.
pub struct LexerModel {
    pub source: Seq<char>,
    pub index: int,
    pub line: int,
    pub tokens: Seq<TokenModel>,
}

impl View for Lexer {
    type V = LexerModel;

    closed spec fn view(&self) -> LexerModel {
        LexerModel {
            source: self.source@,
            index: self.index as int,
            line: self.line as int,
            tokens: self.tokens.deep_view(),
        }
    }
}

impl Lexer {
    /// A fresh lexer over `source`: cursor at the start, on line one, no
    /// tokens yet.
    pub fn new(source: &str) -> (lexer: Lexer)
        ensures
            lexer@.source == source@,
            lexer@.index == 0,
            lexer@.line == 1,
            lexer@.tokens == Seq::<TokenModel>::empty(),
    {
        let lexer = Lexer { source: source.to_owned(), index: 0, line: 1, tokens: Vec::new() };
        proof {
            assert(lexer@.tokens =~= Seq::<TokenModel>::empty());
        }
        lexer
    }

    /// Moves the cursor one position onward and hands back the character it
    /// moved over, or `None` when it was already past the text.
    pub fn advance(&mut self) -> (c: Option<char>)
        requires
            old(self)@.index < usize::MAX,
        ensures
            final(self)@ == (LexerModel { index: old(self)@.index + 1, ..old(self)@ }),
            c == (if old(self)@.index < old(self)@.source.len() {
                Some(old(self)@.source[old(self)@.index])
            } else {
                None::<char>
            }),
    {
        self.index = self.index + 1;
        if self.index <= self.source.as_str().unicode_len() {
            Some(self.source.as_str().get_char(self.index - 1))
        } else {
            None
        }
    }

    /// The character under the cursor, or `None` when the cursor is past the
    /// text; the cursor stays put.
    pub fn peek(&self) -> (c: Option<char>)
        ensures
            c == (if self@.index < self@.source.len() {
                Some(self@.source[self@.index])
            } else {
                None::<char>
            }),
    {
        if self.index < self.source.as_str().unicode_len() {
            Some(self.source.as_str().get_char(self.index))
        } else {
            None
        }
    }

    /// Reads the whole remaining text into tokens, appended to the tokens
    /// already read: exactly the sequence [`lex_spec`] gives from the
    /// cursor's position. Requires the remaining text to be lexable — no
    /// illegal character, no stray colon, no numeric literal beyond
    /// `i16::MAX` — and leaves the cursor at the end of the text.
    pub fn lex(&mut self)
        requires
            lex_spec(old(self)@.source, old(self)@.index, old(self)@.line) is Some,
            old(self)@.index <= old(self)@.source.len(),
            old(self)@.line + old(self)@.source.len() - old(self)@.index <= usize::MAX,
        ensures
            final(self)@.source == old(self)@.source,
            final(self)@.index == old(self)@.source.len(),
            final(self)@.line == old(self)@.line + newlines_from(
                old(self)@.source,
                old(self)@.index,
            ),
            final(self)@.tokens == old(self)@.tokens + lex_spec(
                old(self)@.source,
                old(self)@.index,
                old(self)@.line,
            ).unwrap(),
    {
        let len = self.source.as_str().unicode_len();
        let ghost src = self@.source;
        let ghost total = self@.tokens + lex_spec(src, self@.index, self@.line).unwrap();
        while self.index < len
            invariant
                self@.source == src,
                src == old(self)@.source,
                len == src.len(),
                self@.index <= len,
                self@.line + len - self@.index <= usize::MAX,
                self@.line + newlines_from(src, self@.index) == old(self)@.line + newlines_from(
                    src,
                    old(self)@.index,
                ),
                lex_spec(src, self@.index, self@.line) is Some,
                self@.tokens + lex_spec(src, self@.index, self@.line).unwrap() == total,
                total == old(self)@.tokens + lex_spec(
                    old(self)@.source,
                    old(self)@.index,
                    old(self)@.line,
                ).unwrap(),
            decreases len - self.index,
        {
            let ghost pre = self@;
            let c = self.source.as_str().get_char(self.index);
            let class = Lexer::get_char_type(c);
            match class {
                CharType::Comma => {
                    self.index = self.index + 1;
                },
                CharType::WhiteSpace => {
                    self.index = self.index + 1;
                },
                CharType::Return => {
                    self.index = self.index + 1;
                },
                CharType::Tab => {
                    self.index = self.index + 1;
                },
                CharType::Newline => {
                    self.index = self.index + 1;
                    self.line = self.line + 1;
                },
                CharType::Colon => {
                    proof {
                        assert(false);
                    }
                },
                CharType::Illegal => {
                    proof {
                        assert(false);
                    }
                },
                CharType::Letter => {
                    let start = self.index;
                    proof {
                        lemma_letter_run_end_bounds(src, start as int);
                    }
                    let ghost end = letter_run_end(src, start as int);
                    let mut j = start + 1;
                    while j < len && Lexer::get_char_type(self.source.as_str().get_char(j))
                        == CharType::Letter
                        invariant
                            self@.source == src,
                            len == src.len(),
                            start < j <= len,
                            end == letter_run_end(src, start as int),
                            letter_run_end(src, j as int) == end,
                        decreases len - j,
                    {
                        proof {
                            lemma_letter_run_end_bounds(src, j as int);
                        }
                        j = j + 1;
                    }
                    proof {
                        assert(j as int == end);
                    }
                    let text = self.source.as_str().substring_char(start, j).to_owned();
                    let is_label = if j < len {
                        Lexer::get_char_type(self.source.as_str().get_char(j)) == CharType::Colon
                    } else {
                        false
                    };
                    if is_label {
                        self.tokens.push(
                            Token::new(TokenType::Identifier(text), self.line),
                        );
                        self.index = j + 1;
                    } else {
                        self.tokens.push(Token::new(TokenType::Str(text), self.line));
                        self.index = j;
                    }
                    proof {
                        lemma_newlines_skip(src, start as int, end);
                        let word = src.subrange(start as int, end);
                        let tok = TokenModel {
                            token_type: if is_label {
                                TokenTypeModel::Identifier(word)
                            } else {
                                TokenTypeModel::Str(word)
                            },
                            line: pre.line,
                        };
                        let rest = lex_spec(src, self@.index, self@.line).unwrap();
                        assert(self@.tokens =~= pre.tokens.push(tok));
                        assert(lex_spec(src, pre.index, pre.line).unwrap() =~= seq![tok] + rest);
                        assert(pre.tokens + (seq![tok] + rest) =~= pre.tokens.push(tok) + rest);
                    }
                },
                CharType::Num => {
                    let start = self.index;
                    proof {
                        lemma_digit_run_end_bounds(src, start as int);
                    }
                    let ghost end = digit_run_end(src, start as int);
                    let ghost run = src.subrange(start as int, end);
                    proof {
                        assert forall|k: int| 0 <= k < run.len() implies char_class(
                            #[trigger] run[k],
                        ) == CharType::Num by {
                            assert(run[k] == src[start as int + k]);
                        }
                        assert(digits_value(run) <= 0x7fff);
                        assert(src.subrange(start as int, start as int + 1) =~= run.take(1));
                        assert(run.take(1).drop_last() =~= Seq::<char>::empty());
                        lemma_digits_value_prefix(run, 1);
                        lemma_digits_value_nonneg(run.take(1));
                        assert(run.take(1).last() == src[start as int]);
                        assert(digits_value(run.take(1)) == digits_value(Seq::<char>::empty()) * 10
                            + digit_value(src[start as int]));
                    }
                    let mut value: u16 = (c as u32 - 48) as u16;
                    let mut j = start + 1;
                    while j < len && Lexer::get_char_type(self.source.as_str().get_char(j))
                        == CharType::Num
                        invariant
                            self@.source == src,
                            len == src.len(),
                            start < j <= len,
                            end == digit_run_end(src, start as int),
                            digit_run_end(src, j as int) == end,
                            run == src.subrange(start as int, end),
                            digits_value(run) <= 0x7fff,
                            forall|k: int| 0 <= k < run.len() ==> char_class(#[trigger] run[k])
                                == CharType::Num,
                            value == digits_value(src.subrange(start as int, j as int)),
                            0 <= value <= 0x7fff,
                        decreases len - j,
                    {
                        let d = self.source.as_str().get_char(j);
                        proof {
                            lemma_digit_run_end_bounds(src, j as int);
                            assert(src.subrange(start as int, j as int + 1).drop_last()
                                =~= src.subrange(start as int, j as int));
                            assert(src.subrange(start as int, j as int + 1) =~= run.take(
                                j as int + 1 - start,
                            ));
                            lemma_digits_value_prefix(run, j as int + 1 - start);
                        }
                        let next = value as u32 * 10 + (d as u32 - 48);
                        value = next as u16;
                        j = j + 1;
                    }
                    proof {
                        assert(j as int == end);
                        assert(src.subrange(start as int, j as int) =~= run);
                    }
                    self.tokens.push(Token::new(TokenType::Num(value as i16), self.line));
                    self.index = j;
                    proof {
                        lemma_newlines_skip(src, start as int, end);
                        let tok = TokenModel {
                            token_type: TokenTypeModel::Num(digits_value(run) as i16),
                            line: pre.line,
                        };
                        let rest = lex_spec(src, self@.index, self@.line).unwrap();
                        assert(self@.tokens =~= pre.tokens.push(tok));
                        assert(lex_spec(src, pre.index, pre.line).unwrap() =~= seq![tok] + rest);
                        assert(pre.tokens + (seq![tok] + rest) =~= pre.tokens.push(tok) + rest);
                    }
                },
            }
        }
        proof {
            assert(lex_spec(src, self@.index, self@.line).unwrap() =~= Seq::<TokenModel>::empty());
            assert(self@.tokens =~= self@.tokens + Seq::<TokenModel>::empty());
        }
    }

    /// The lexical class of a character, as [`char_class`] gives it.
    pub fn get_char_type(input: char) -> (class: CharType)
        ensures
            class == char_class(input),
    {
        let v = input as u32;
        if (97 <= v && v <= 122) || (65 <= v && v <= 90) {
            CharType::Letter
        } else if 48 <= v && v <= 57 {
            CharType::Num
        } else if v == 58 {
            CharType::Colon
        } else if v == 44 {
            CharType::Comma
        } else if v == 32 {
            CharType::WhiteSpace
        } else if v == 10 {
            CharType::Newline
        } else if v == 13 {
            CharType::Return
        } else if v == 9 {
            CharType::Tab
        } else {
            CharType::Illegal
        }
    }
}

} // verus!
