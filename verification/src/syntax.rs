//! From text to terms: the words of the language, and the parser that reads
//! a program from them and says where each node was written.

use crate::ast::{Expr, Span, SpanExpr, Type};
use vstd::prelude::*;
use vstd::string::StringSliceAdditionalSpecFns;

verus! {

/// A word of the language.
#[derive(Clone, Copy, Debug, PartialEq, Eq, Structural)]
pub enum Token {
    /// A number in decimal, with its value.
    Number(i64),
    True,
    False,
    If,
    Then,
    Else,
    End,
    Colon,
    Int,
    Bool,
}

/// What the parser would have taken where it found something else.
#[derive(Clone, Copy, Debug, PartialEq, Eq, Structural)]
pub enum Expected {
    /// The start of a term: a number, `true`, `false` or `if`.
    Term,
    /// The name of a type: `int` or `bool`.
    Type,
    /// `:`, behind a whole program.
    Colon,
    /// `:` or `then`, behind the condition of an `if`.
    ColonOrThen,
    /// `:` or `else`, behind the first branch of an `if`.
    ColonOrElse,
    /// `:` or `end`, behind the second branch of an `if`.
    ColonOrEnd,
}

/// What is wrong with a word in itself.
#[derive(Clone, Copy, Debug, PartialEq, Eq, Structural)]
pub enum UserError {
    /// A number that does not fit in 64 bits.
    NumberTooBig,
}

/// Why a text is no program. Offsets count the bytes of the text.
#[derive(Clone, Copy, Debug, PartialEq, Eq)]
pub enum ParseError {
    /// At `location` no word of the language starts.
    InvalidToken { location: usize },
    /// The text ends, at `location`, where a program goes on.
    UnrecognizedEOF { location: usize, expected: Expected },
    /// The word `token`, with the offsets at which it starts and ends, stands
    /// where a program has something else.
    UnrecognizedToken { token: (usize, Token, usize), expected: Expected },
    /// A word is wrong in itself.
    User { error: UserError },
}

/// Whether a byte is white space: a blank, a tab, a line feed, a vertical
/// tab, a form feed or a carriage return.
pub open spec fn is_space(b: u8) -> bool {
    b == 32 || 9 <= b <= 13
}

/// Whether a byte is a decimal digit.
pub open spec fn is_digit(b: u8) -> bool {
    48 <= b <= 57
}

/// Whether the bytes of `word` stand in `src` from `at` on.
pub open spec fn has_at(src: Seq<u8>, at: int, word: Seq<u8>) -> bool {
    &&& 0 <= at
    &&& at + word.len() <= src.len()
    &&& src.subrange(at, at + word.len()) == word
}

/// How the words that are always written the same are written, as bytes.
/// (A number is written in many ways: it has no spelling.)
pub open spec fn spelling(token: Token) -> Seq<u8> {
    match token {
        Token::Number(_) => seq![],
        Token::True => seq![116, 114, 117, 101],
        Token::False => seq![102, 97, 108, 115, 101],
        Token::If => seq![105, 102],
        Token::Then => seq![116, 104, 101, 110],
        Token::Else => seq![101, 108, 115, 101],
        Token::End => seq![101, 110, 100],
        Token::Colon => seq![58],
        Token::Int => seq![105, 110, 116],
        Token::Bool => seq![98, 111, 111, 108],
    }
}

/// Where the run of digits that starts at `at` ends: `at` itself where no
/// digit stands there.
pub open spec fn digits_end(src: Seq<u8>, at: int) -> int
    decreases src.len() - at,
{
    if 0 <= at < src.len() && is_digit(src[at]) {
        digits_end(src, at + 1)
    } else {
        at
    }
}

/// The number that a run of digits stands for.
pub open spec fn digits_value(s: Seq<u8>) -> int
    decreases s.len(),
{
    if s.len() == 0 {
        0
    } else {
        digits_value(s.drop_last()) * 10 + (s.last() - 48)
    }
}

/// Where the white space that starts at `at` ends.
pub open spec fn spaces_end(src: Seq<u8>, at: int) -> int
    decreases src.len() - at,
{
    if 0 <= at < src.len() && is_space(src[at]) {
        spaces_end(src, at + 1)
    } else {
        at
    }
}

/// The number written at `at`, if one is: its value and where it ends. A
/// number is a run of digits, as long as it can be, with or without a minus
/// sign in front.
pub open spec fn number_at(src: Seq<u8>, at: int) -> Option<(int, int)> {
    let negative = 0 <= at < src.len() && src[at] == 45;
    let from = if negative {
        at + 1
    } else {
        at
    };
    let to = digits_end(src, from);
    if from < to {
        let magnitude = digits_value(src.subrange(from, to));
        Some(
            (
                if negative {
                    -magnitude
                } else {
                    magnitude
                },
                to,
            ),
        )
    } else {
        None
    }
}

/// The word that is always written the same and stands at `at`, if one does.
pub open spec fn fixed_word_at(src: Seq<u8>, at: int) -> Option<Token> {
    if has_at(src, at, spelling(Token::True)) {
        Some(Token::True)
    } else if has_at(src, at, spelling(Token::False)) {
        Some(Token::False)
    } else if has_at(src, at, spelling(Token::If)) {
        Some(Token::If)
    } else if has_at(src, at, spelling(Token::Then)) {
        Some(Token::Then)
    } else if has_at(src, at, spelling(Token::Else)) {
        Some(Token::Else)
    } else if has_at(src, at, spelling(Token::End)) {
        Some(Token::End)
    } else if has_at(src, at, spelling(Token::Colon)) {
        Some(Token::Colon)
    } else if has_at(src, at, spelling(Token::Int)) {
        Some(Token::Int)
    } else if has_at(src, at, spelling(Token::Bool)) {
        Some(Token::Bool)
    } else {
        None
    }
}

/// The word that stands at `at`, with the offset at which it ends; or why
/// none does. Words need no white space between them: a word ends where its
/// spelling ends, a number where its digits end.
pub open spec fn word_at(src: Seq<u8>, at: int) -> Result<(Token, int), ParseError> {
    match fixed_word_at(src, at) {
        Some(token) => Ok((token, at + spelling(token).len())),
        None => match number_at(src, at) {
            Some((value, end)) => if i64::MIN <= value <= i64::MAX {
                Ok((Token::Number(value as i64), end))
            } else {
                Err(ParseError::User { error: UserError::NumberTooBig })
            },
            None => Err(ParseError::InvalidToken { location: at as usize }),
        },
    }
}

/// The words of a text up to the first place that is no word, and what is
/// wrong at that place, if there is one.
pub struct Words {
    /// Each word with the offsets at which it starts and ends.
    pub tokens: Seq<(usize, Token, usize)>,
    /// Why the words stop before the text does.
    pub stop: Option<ParseError>,
}

/// The words of `src` from `at` on: white space is skipped, a word is taken,
/// and so on to the end of the text or to the first place at which no word
/// stands.
///
/// (That a word ends behind its start is asked for here so that the
/// definition is well founded. It always does: see `lemma_word_extent`.)
pub open spec fn words_from(src: Seq<u8>, at: int) -> Words
    decreases src.len() - at,
{
    let start = spaces_end(src, at);
    if 0 <= at <= start < src.len() {
        match word_at(src, start) {
            Ok((token, end)) => if start < end <= src.len() {
                let rest = words_from(src, end);
                Words {
                    tokens: seq![(start as usize, token, end as usize)] + rest.tokens,
                    stop: rest.stop,
                }
            } else {
                Words { tokens: seq![], stop: None }
            },
            Err(e) => Words { tokens: seq![], stop: Some(e) },
        }
    } else {
        Words { tokens: seq![], stop: None }
    }
}

/// Whether a word can stand from `start` up to `end`: a stretch of the text
/// that is not empty and holds no line feed.
pub open spec fn is_word_place(src: Seq<u8>, start: int, end: int) -> bool {
    &&& 0 <= start < end <= src.len()
    &&& forall|i: int| start <= i < end ==> src[i] != 10
}

/// A word always ends behind its start, and within the text; and it holds no
/// line feed.
pub proof fn lemma_word_extent(src: Seq<u8>, at: int)
    requires
        0 <= at < src.len(),
    ensures
        word_at(src, at) matches Ok((_, end)) ==> is_word_place(src, at, end),
{
    lemma_digits_end_bounds(src, at);
    lemma_digits_end_bounds(src, at + 1);
    if let Ok((token, end)) = word_at(src, at) {
        if let Some(fixed) = fixed_word_at(src, at) {
            // The bytes of the word are those of its spelling
            let word = spelling(fixed);
            assert forall|i: int| at <= i < end implies src[i] != 10 by {
                assert(src[i] == src.subrange(at, at + word.len())[i - at]);
            }
        }
    }
}

/// White space ends at or behind its start, and within the text.
pub proof fn lemma_spaces_end_bounds(src: Seq<u8>, at: int)
    requires
        0 <= at <= src.len(),
    ensures
        at <= spaces_end(src, at) <= src.len(),
    decreases src.len() - at,
{
    if at < src.len() && is_space(src[at]) {
        lemma_spaces_end_bounds(src, at + 1);
    }
}

/// Every word of a text stands at a place of its own: a stretch of the text
/// that is not empty and holds no line feed.
pub proof fn lemma_words_have_places(src: Seq<u8>, at: int)
    requires
        0 <= at <= src.len() <= usize::MAX,
    ensures
        forall|k: int|
            0 <= k < words_from(src, at).tokens.len() ==> is_word_place(
                src,
                (#[trigger] words_from(src, at).tokens[k]).0 as int,
                words_from(src, at).tokens[k].2 as int,
            ),
    decreases src.len() - at,
{
    let start = spaces_end(src, at);
    lemma_spaces_end_bounds(src, at);
    if start < src.len() {
        lemma_word_extent(src, start);
        if let Ok((token, end)) = word_at(src, start) {
            lemma_words_have_places(src, end);
            let rest = words_from(src, end);
            let all = words_from(src, at).tokens;
            assert forall|k: int| 0 <= k < all.len() implies is_word_place(
                src,
                (#[trigger] all[k]).0 as int,
                all[k].2 as int,
            ) by {
                if k > 0 {
                    assert(all[k] == rest.tokens[k - 1]);
                }
            }
        }
    }
}

/// Where the words of a text stop before the text does, it is for a byte
/// that starts no word or for a number that is too big.
pub proof fn lemma_words_stop(src: Seq<u8>, at: int)
    requires
        0 <= at <= src.len(),
    ensures
        match words_from(src, at).stop {
            Some(ParseError::InvalidToken { .. }) => true,
            Some(ParseError::User { .. }) => true,
            Some(_) => false,
            None => true,
        },
    decreases src.len() - at,
{
    let start = spaces_end(src, at);
    lemma_spaces_end_bounds(src, at);
    if start < src.len() {
        lemma_word_extent(src, start);
        if let Ok((token, end)) = word_at(src, start) {
            lemma_words_stop(src, end);
        }
    }
}

/// A run of digits ends at or behind its start, and within the text.
pub proof fn lemma_digits_end_bounds(src: Seq<u8>, at: int)
    requires
        0 <= at <= src.len(),
    ensures
        at <= digits_end(src, at) <= src.len(),
        forall|i: int| at <= i < digits_end(src, at) ==> is_digit(src[i]),
        digits_end(src, at) < src.len() ==> !is_digit(src[digits_end(src, at)]),
    decreases src.len() - at,
{
    if at < src.len() && is_digit(src[at]) {
        lemma_digits_end_bounds(src, at + 1);
    }
}

/// Tests whether the bytes of `word` stand in `src` from `at` on.
fn has_word(src: &[u8], at: usize, word: &[u8]) -> (r: bool)
    requires
        at <= src.len(),
    ensures
        r == has_at(src@, at as int, word@),
{
    if word.len() > src.len() - at {
        return false;
    }
    let mut i: usize = 0;
    while i < word.len()
        invariant
            i <= word.len(),
            at + word.len() <= src.len(),
            src@.subrange(at as int, at + i) == word@.subrange(0, i as int),
        decreases word.len() - i,
    {
        if src[at + i] != word[i] {
            return false;
        }
        i += 1;
    }
    proof {
        assert(word@.subrange(0, i as int) =~= word@);
    }
    true
}

/// The word that is always written the same and stands at `at`, with its
/// length.
fn fixed_word(src: &[u8], at: usize) -> (r: Option<(Token, usize)>)
    requires
        at <= src.len(),
    ensures
        match r {
            Some((token, len)) => fixed_word_at(src@, at as int) == Some(token) && len == spelling(
                token,
            ).len() && at + len <= src.len(),
            None => fixed_word_at(src@, at as int) is None,
        },
{
    let w_true: [u8; 4] = [116, 114, 117, 101];
    let w_false: [u8; 5] = [102, 97, 108, 115, 101];
    let w_if: [u8; 2] = [105, 102];
    let w_then: [u8; 4] = [116, 104, 101, 110];
    let w_else: [u8; 4] = [101, 108, 115, 101];
    let w_end: [u8; 3] = [101, 110, 100];
    let w_colon: [u8; 1] = [58];
    let w_int: [u8; 3] = [105, 110, 116];
    let w_bool: [u8; 4] = [98, 111, 111, 108];
    proof {
        assert(w_true@ =~= spelling(Token::True));
        assert(w_false@ =~= spelling(Token::False));
        assert(w_if@ =~= spelling(Token::If));
        assert(w_then@ =~= spelling(Token::Then));
        assert(w_else@ =~= spelling(Token::Else));
        assert(w_end@ =~= spelling(Token::End));
        assert(w_colon@ =~= spelling(Token::Colon));
        assert(w_int@ =~= spelling(Token::Int));
        assert(w_bool@ =~= spelling(Token::Bool));
    }
    if has_word(src, at, &w_true) {
        Some((Token::True, 4))
    } else if has_word(src, at, &w_false) {
        Some((Token::False, 5))
    } else if has_word(src, at, &w_if) {
        Some((Token::If, 2))
    } else if has_word(src, at, &w_then) {
        Some((Token::Then, 4))
    } else if has_word(src, at, &w_else) {
        Some((Token::Else, 4))
    } else if has_word(src, at, &w_end) {
        Some((Token::End, 3))
    } else if has_word(src, at, &w_colon) {
        Some((Token::Colon, 1))
    } else if has_word(src, at, &w_int) {
        Some((Token::Int, 3))
    } else if has_word(src, at, &w_bool) {
        Some((Token::Bool, 4))
    } else {
        None
    }
}

/// The number that is written at `at`, with the offset at which it ends. The
/// value is missing where it does not fit in 64 bits.
fn number(src: &[u8], at: usize) -> (r: Option<(Option<i64>, usize)>)
    requires
        at < src.len(),
    ensures
        match r {
            Some((value, end)) => {
                &&& number_at(src@, at as int) matches Some((v, e))
                &&& e == end
                &&& at < end <= src.len()
                &&& match value {
                    Some(n) => v == n,
                    None => !(i64::MIN <= v <= i64::MAX),
                }
            },
            None => number_at(src@, at as int) is None,
        },
{
    let negative = src[at] == 45;
    let from: usize = if negative {
        at + 1
    } else {
        at
    };
    let mut i: usize = from;
    // Minus the value of the digits so far, as long as that fits: there is
    // one more negative number than there are positive ones
    let mut acc: i128 = 0;
    let mut fits = true;
    while i < src.len() && 48 <= src[i] && src[i] <= 57
        invariant
            from <= i <= src.len(),
            digits_end(src@, from as int) == digits_end(src@, i as int),
            forall|j: int| from <= j < i ==> is_digit(src@[j]),
            fits ==> acc == -digits_value(src@.subrange(from as int, i as int)) && i64::MIN <= acc
                <= 0,
            !fits ==> digits_value(src@.subrange(from as int, i as int)) > -i64::MIN,
        decreases src.len() - i,
    {
        let d: i128 = (src[i] - 48) as i128;
        proof {
            // One digit more: the digits so far are all but the last
            assert(src@.subrange(from as int, i + 1).drop_last() =~= src@.subrange(
                from as int,
                i as int,
            ));
        }
        if fits {
            let next: i128 = acc * 10 - d;
            if next < i64::MIN as i128 {
                fits = false;
            } else {
                acc = next;
            }
        }
        i += 1;
    }
    if i == from {
        return None;
    }
    if !fits {
        Some((None, i))
    } else if negative {
        Some((Some(acc as i64), i))
    } else if acc == i64::MIN as i128 {
        Some((None, i))
    } else {
        Some((Some((-acc) as i64), i))
    }
}

/// The word that stands at `at`, with the offset at which it ends.
fn word(src: &[u8], at: usize) -> (r: Result<(Token, usize), ParseError>)
    requires
        at < src.len(),
    ensures
        match r {
            Ok((token, end)) => word_at(src@, at as int) == Ok::<(Token, int), ParseError>(
                (token, end as int),
            ) && at < end <= src.len(),
            Err(e) => word_at(src@, at as int) == Err::<(Token, int), ParseError>(e),
        },
{
    match fixed_word(src, at) {
        Some((token, len)) => Ok((token, at + len)),
        None => match number(src, at) {
            Some((Some(value), end)) => Ok((Token::Number(value), end)),
            Some((None, _)) => Err(ParseError::User { error: UserError::NumberTooBig }),
            None => Err(ParseError::InvalidToken { location: at }),
        },
    }
}

/// Splits a text into its words. Stops at the first place that is no word,
/// and says what is wrong there.
pub fn lex(src: &[u8]) -> (r: (Vec<(usize, Token, usize)>, Option<ParseError>))
    ensures
        r.0@ == words_from(src@, 0).tokens,
        r.1 == words_from(src@, 0).stop,
{
    let mut tokens: Vec<(usize, Token, usize)> = Vec::new();
    let mut at: usize = 0;
    loop
        invariant
            at <= src.len(),
            words_from(src@, 0).tokens == tokens@ + words_from(src@, at as int).tokens,
            words_from(src@, 0).stop == words_from(src@, at as int).stop,
        decreases src.len() - at,
    {
        let mut start: usize = at;
        while start < src.len() && (src[start] == 32 || (9 <= src[start] && src[start] <= 13))
            invariant
                at <= start <= src.len(),
                spaces_end(src@, at as int) == spaces_end(src@, start as int),
            decreases src.len() - start,
        {
            start += 1;
        }
        if start >= src.len() {
            return (tokens, None);
        }
        match word(src, start) {
            Ok((token, end)) => {
                tokens.push((start, token, end));
                at = end;
            },
            Err(e) => {
                return (tokens, Some(e));
            },
        }
    }
}

/// The error for what stands at `pos`, where `expected` was needed: the
/// word there; or, behind the last word, what stopped the words; or else that
/// the text ends there.
pub open spec fn unexpected(words: Words, pos: int, expected: Expected) -> ParseError {
    if 0 <= pos < words.tokens.len() {
        ParseError::UnrecognizedToken { token: words.tokens[pos], expected }
    } else {
        match words.stop {
            Some(e) => e,
            None => ParseError::UnrecognizedEOF {
                location: if words.tokens.len() == 0 {
                    0
                } else {
                    words.tokens.last().2
                },
                expected,
            },
        }
    }
}

/// Whether the word `token` stands at `pos`.
pub open spec fn is_at(words: Words, pos: int, token: Token) -> bool {
    0 <= pos < words.tokens.len() && words.tokens[pos].1 == token
}

/// The annotations that follow the term `term`, which ends before `pos`,
/// put on it one after the other: the term so annotated, and where the
/// annotations end.
///
/// An annotation is `:` and the name of a type. The annotated term reaches
/// from where the term starts to where the name ends.
pub open spec fn annotated_at(words: Words, pos: int, term: SpanExpr) -> Result<
    (SpanExpr, int),
    ParseError,
>
    decreases words.tokens.len() - pos,
{
    if is_at(words, pos, Token::Colon) {
        if is_at(words, pos + 1, Token::Int) || is_at(words, pos + 1, Token::Bool) {
            let name = words.tokens[pos + 1];
            let span = Span(name.0, name.2);
            annotated_at(
                words,
                pos + 2,
                Expr::TypeAnno {
                    extra: Span(term.spec_extra().0, name.2),
                    term: Box::new(term),
                    ty: if name.1 == Token::Int {
                        Type::Int(span)
                    } else {
                        Type::Bool(span)
                    },
                },
            )
        } else {
            Err(unexpected(words, pos + 1, Expected::Type))
        }
    } else {
        Ok((term, pos))
    }
}

/// The term that starts at `pos` and has no annotation of its own: a number,
/// `true`, `false`, or an `if` up to its `end`; and where it ends.
///
/// (That each of the three terms of an `if` ends behind its start is asked
/// for here so that the definition is well founded. It always does: see
/// `grammar::lemma_read_was_written`.)
pub open spec fn atom_at(words: Words, pos: int) -> Result<(SpanExpr, int), ParseError>
    decreases words.tokens.len() - pos, 0int,
{
    if 0 <= pos < words.tokens.len() {
        let (start, token, end) = words.tokens[pos];
        match token {
            Token::Number(n) => Ok((Expr::IntLit(Span(start, end), n), pos + 1)),
            Token::True => Ok((Expr::BoolLit(Span(start, end), true), pos + 1)),
            Token::False => Ok((Expr::BoolLit(Span(start, end), false), pos + 1)),
            Token::If => match term_at(words, pos + 1) {
                Ok((cond, then_pos)) => if pos < then_pos && is_at(words, then_pos, Token::Then) {
                    match term_at(words, then_pos + 1) {
                        Ok((on_true, else_pos)) => if then_pos < else_pos && is_at(
                            words,
                            else_pos,
                            Token::Else,
                        ) {
                            match term_at(words, else_pos + 1) {
                                Ok((on_false, end_pos)) => if else_pos < end_pos && is_at(
                                    words,
                                    end_pos,
                                    Token::End,
                                ) {
                                    Ok(
                                        (
                                            Expr::IfFlow {
                                                extra: Span(start, words.tokens[end_pos].2),
                                                cond: Box::new(cond),
                                                on_true: Box::new(on_true),
                                                on_false: Box::new(on_false),
                                            },
                                            end_pos + 1,
                                        ),
                                    )
                                } else {
                                    Err(unexpected(words, end_pos, Expected::ColonOrEnd))
                                },
                                Err(e) => Err(e),
                            }
                        } else {
                            Err(unexpected(words, else_pos, Expected::ColonOrElse))
                        },
                        Err(e) => Err(e),
                    }
                } else {
                    Err(unexpected(words, then_pos, Expected::ColonOrThen))
                },
                Err(e) => Err(e),
            },
            _ => Err(unexpected(words, pos, Expected::Term)),
        }
    } else {
        Err(unexpected(words, pos, Expected::Term))
    }
}

/// The term that starts at `pos`, with every annotation that follows it; and
/// where it ends.
pub open spec fn term_at(words: Words, pos: int) -> Result<(SpanExpr, int), ParseError>
    decreases words.tokens.len() - pos, 1int,
{
    match atom_at(words, pos) {
        Ok((term, next)) => annotated_at(words, next, term),
        Err(e) => Err(e),
    }
}

/// The program that the words make up: one term that takes all of them.
pub open spec fn program(words: Words) -> Result<SpanExpr, ParseError> {
    match term_at(words, 0) {
        Ok((term, end)) => if end == words.tokens.len() && words.stop is None {
            Ok(term)
        } else {
            Err(unexpected(words, end, Expected::Colon))
        },
        Err(e) => Err(e),
    }
}

/// The program that a text is, or the first reason for which it is none.
pub open spec fn parse_spec(src: Seq<u8>) -> Result<SpanExpr, ParseError> {
    program(words_from(src, 0))
}

/// The words of a text as the parser holds them.
struct Reader<'a> {
    tokens: &'a Vec<(usize, Token, usize)>,
    stop: Option<ParseError>,
}

impl<'a> Reader<'a> {
    /// The words as a value of mathematics.
    spec fn words(&self) -> Words {
        Words { tokens: self.tokens@, stop: self.stop }
    }

    /// The error for what stands at `pos`, where `expected` was needed.
    fn unexpected(&self, pos: usize, expected: Expected) -> (e: ParseError)
        ensures
            e == unexpected(self.words(), pos as int, expected),
    {
        if pos < self.tokens.len() {
            ParseError::UnrecognizedToken { token: self.tokens[pos], expected }
        } else {
            match self.stop {
                Some(e) => e,
                None => ParseError::UnrecognizedEOF {
                    location: if self.tokens.len() == 0 {
                        0
                    } else {
                        self.tokens[self.tokens.len() - 1].2
                    },
                    expected,
                },
            }
        }
    }

    /// Tests whether the word `token` stands at `pos`.
    fn is_at(&self, pos: usize, token: Token) -> (r: bool)
        ensures
            r == is_at(self.words(), pos as int, token),
    {
        pos < self.tokens.len() && self.tokens[pos].1 == token
    }

    /// Puts the annotations that stand at `pos` on the term that ends there.
    fn annotated(&self, pos: usize, term: SpanExpr) -> (r: Result<(SpanExpr, usize), ParseError>)
        requires
            pos <= self.tokens.len(),
        ensures
            match r {
                Ok((e, end)) => annotated_at(self.words(), pos as int, term) == Ok::<
                    (SpanExpr, int),
                    ParseError,
                >((e, end as int)) && pos <= end <= self.tokens.len(),
                Err(e) => annotated_at(self.words(), pos as int, term) == Err::<
                    (SpanExpr, int),
                    ParseError,
                >(e),
            },
    {
        let mut whole = term;
        let mut at: usize = pos;
        while self.is_at(at, Token::Colon)
            invariant
                pos <= at <= self.tokens.len(),
                annotated_at(self.words(), pos as int, term) == annotated_at(
                    self.words(),
                    at as int,
                    whole,
                ),
            decreases self.tokens.len() - at,
        {
            if self.is_at(at + 1, Token::Int) || self.is_at(at + 1, Token::Bool) {
                let name = self.tokens[at + 1];
                let span = Span(name.0, name.2);
                let start = whole.extra().0;
                whole = Expr::TypeAnno {
                    extra: Span(start, name.2),
                    term: Box::new(whole),
                    ty: if name.1 == Token::Int {
                        Type::Int(span)
                    } else {
                        Type::Bool(span)
                    },
                };
                at += 2;
            } else {
                return Err(self.unexpected(at + 1, Expected::Type));
            }
        }
        Ok((whole, at))
    }

    /// Reads the term without annotations of its own that starts at `pos`.
    fn atom(&self, pos: usize) -> (r: Result<(SpanExpr, usize), ParseError>)
        requires
            pos <= self.tokens.len(),
        ensures
            match r {
                Ok((e, end)) => atom_at(self.words(), pos as int) == Ok::<
                    (SpanExpr, int),
                    ParseError,
                >((e, end as int)) && pos < end <= self.tokens.len(),
                Err(e) => atom_at(self.words(), pos as int) == Err::<(SpanExpr, int), ParseError>(
                    e,
                ),
            },
        decreases self.tokens.len() - pos, 0int,
    {
        if pos >= self.tokens.len() {
            return Err(self.unexpected(pos, Expected::Term));
        }
        let (start, token, end) = self.tokens[pos];
        match token {
            Token::Number(n) => Ok((Expr::IntLit(Span(start, end), n), pos + 1)),
            Token::True => Ok((Expr::BoolLit(Span(start, end), true), pos + 1)),
            Token::False => Ok((Expr::BoolLit(Span(start, end), false), pos + 1)),
            Token::If => {
                let (cond, then_pos) = match self.term(pos + 1) {
                    Ok(found) => found,
                    Err(e) => {
                        return Err(e);
                    },
                };
                if !self.is_at(then_pos, Token::Then) {
                    return Err(self.unexpected(then_pos, Expected::ColonOrThen));
                }
                let (on_true, else_pos) = match self.term(then_pos + 1) {
                    Ok(found) => found,
                    Err(e) => {
                        return Err(e);
                    },
                };
                if !self.is_at(else_pos, Token::Else) {
                    return Err(self.unexpected(else_pos, Expected::ColonOrElse));
                }
                let (on_false, end_pos) = match self.term(else_pos + 1) {
                    Ok(found) => found,
                    Err(e) => {
                        return Err(e);
                    },
                };
                if !self.is_at(end_pos, Token::End) {
                    return Err(self.unexpected(end_pos, Expected::ColonOrEnd));
                }
                Ok(
                    (
                        Expr::IfFlow {
                            extra: Span(start, self.tokens[end_pos].2),
                            cond: Box::new(cond),
                            on_true: Box::new(on_true),
                            on_false: Box::new(on_false),
                        },
                        end_pos + 1,
                    ),
                )
            },
            _ => Err(self.unexpected(pos, Expected::Term)),
        }
    }

    /// Reads the term that starts at `pos`, with its annotations.
    fn term(&self, pos: usize) -> (r: Result<(SpanExpr, usize), ParseError>)
        requires
            pos <= self.tokens.len(),
        ensures
            match r {
                Ok((e, end)) => term_at(self.words(), pos as int) == Ok::<
                    (SpanExpr, int),
                    ParseError,
                >((e, end as int)) && pos < end <= self.tokens.len(),
                Err(e) => term_at(self.words(), pos as int) == Err::<(SpanExpr, int), ParseError>(
                    e,
                ),
            },
        decreases self.tokens.len() - pos, 1int,
    {
        match self.atom(pos) {
            Ok((term, next)) => self.annotated(next, term),
            Err(e) => Err(e),
        }
    }
}

/// The parser of whole programs.
pub struct TermParser;

impl TermParser {
    /// A parser.
    pub fn new() -> TermParser {
        TermParser
    }

    /// Reads a program: one term, with white space where one likes.
    ///
    /// Where the text is no program, the error is about the first place, from
    /// the left, at which it stops being the start of one.
    pub fn parse(&self, input: &str) -> (r: Result<SpanExpr, ParseError>)
        ensures
            r == parse_spec(input.spec_bytes()),
    {
        let src = input.as_bytes();
        let (tokens, stop) = lex(src);
        let reader = Reader { tokens: &tokens, stop };
        match reader.term(0) {
            Ok((term, end)) => if end == tokens.len() && stop.is_none() {
                Ok(term)
            } else {
                Err(reader.unexpected(end, Expected::Colon))
            },
            Err(e) => Err(e),
        }
    }
}

} // verus!
