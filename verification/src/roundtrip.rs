//! What is printed is read: the parser takes the text that a term is
//! written as, and returns the term.

use crate::ast::{pretty, Expr, Type};
use crate::grammar::{lemma_grammar, lemma_written_ignores_annotations, type_word, written};
use crate::syntax::{
    digits_end, digits_value, fixed_word_at, has_at, is_digit, is_space, lemma_spaces_end_bounds,
    lemma_word_extent, parse_spec, spaces_end, spelling, word_at, words_from, ParseError, Token,
};
use crate::text::{decimal, digit, digits, repeated};
use vstd::prelude::*;
use vstd::utf8::{encode_utf8, is_ascii_chars, is_ascii_chars_encode_utf8};

verus! {

/// The bytes of a text of plain characters, one byte for each.
pub open spec fn bytes_of(text: Seq<char>) -> Seq<u8> {
    Seq::new(text.len(), |i: int| text[i] as u8)
}

/// Whether the bytes of `piece` stand in `src` from `at` on.
#[verifier::opaque]
pub open spec fn occurs(piece: Seq<u8>, src: Seq<u8>, at: int) -> bool {
    &&& 0 <= at
    &&& at + piece.len() <= src.len()
    &&& forall|i: int| 0 <= i < piece.len() ==> #[trigger] src[at + i] == piece[i]
}

/// The words of `src` from `at` on, without their places.
pub open spec fn kinds_from(src: Seq<u8>, at: int) -> Seq<Token> {
    words_from(src, at).tokens.map_values(|t: (usize, Token, usize)| t.1)
}

/// Whether no digit stands at `at`: there the text ends, or another byte
/// stands.
pub open spec fn no_digit_at(src: Seq<u8>, at: int) -> bool {
    at >= src.len() || !is_digit(src[at])
}

/// Whether `piece` is read as the words `ws`, wherever it stands: the words
/// of a text from the start of the piece on are `ws` and then the words from
/// the end of the piece on, and they stop for the same reason.
#[verifier::opaque]
pub open spec fn reads_as(piece: Seq<u8>, ws: Seq<Token>, src: Seq<u8>, at: int) -> bool {
    &&& kinds_from(src, at) == ws + kinds_from(src, at + piece.len())
    &&& words_from(src, at).stop == words_from(src, at + piece.len()).stop
}

/// Pieces that stand one after the other stand there as a whole, and the
/// other way round.
proof fn lemma_occurs_split(a: Seq<u8>, b: Seq<u8>, src: Seq<u8>, at: int)
    ensures
        occurs(a + b, src, at) <==> occurs(a, src, at) && occurs(b, src, at + a.len()),
{
    reveal(occurs);
    if occurs(a + b, src, at) {
        assert forall|i: int| 0 <= i < a.len() implies #[trigger] src[at + i] == a[i] by {
            assert((a + b)[i] == a[i]);
        }
        assert forall|i: int| 0 <= i < b.len() implies #[trigger] src[at + a.len() + i] == b[i] by {
            assert((a + b)[a.len() + i] == b[i]);
            assert(src[at + (a.len() + i)] == (a + b)[a.len() + i]);
        }
    }
    if occurs(a, src, at) && occurs(b, src, at + a.len()) {
        assert forall|i: int| 0 <= i < (a + b).len() implies #[trigger] src[at + i] == (a
            + b)[i] by {
            if i >= a.len() {
                assert(src[at + a.len() + (i - a.len())] == b[i - a.len()]);
            }
        }
    }
}

/// The bytes of two texts, one after the other, are the bytes of the texts
/// put together.
proof fn lemma_bytes_of_concat(a: Seq<char>, b: Seq<char>)
    ensures
        bytes_of(a + b) == bytes_of(a) + bytes_of(b),
{
    assert(bytes_of(a + b) =~= bytes_of(a) + bytes_of(b));
}

/// White space is skipped: the words from the start of a stretch of white
/// space on are the words from its end on.
proof fn lemma_spaces_are_skipped(src: Seq<u8>, from: int, to: int)
    requires
        0 <= from <= to <= src.len(),
        forall|i: int| from <= i < to ==> is_space(src[i]),
    ensures
        spaces_end(src, from) == spaces_end(src, to),
        words_from(src, from) == words_from(src, to),
    decreases to - from,
{
    lemma_spaces_end_bounds(src, to);
    if from < to {
        lemma_spaces_are_skipped(src, from + 1, to);
    }
}

/// One word is read as it stands: where `token` stands at `at`, the words
/// from there on are that word and then the words behind it.
proof fn lemma_word_is_read(src: Seq<u8>, at: int, token: Token, end: int)
    requires
        0 <= at < src.len(),
        word_at(src, at) == Ok::<(Token, int), ParseError>((token, end)),
        !is_space(src[at]),
    ensures
        kinds_from(src, at) == seq![token] + kinds_from(src, end),
        words_from(src, at).stop == words_from(src, end).stop,
{
    reveal(reads_as);
    lemma_word_extent(src, at);
    assert(spaces_end(src, at) == at);
    assert(kinds_from(src, at) =~= seq![token] + kinds_from(src, end));
}

/// A word that is always written the same is read where its spelling
/// stands.
proof fn lemma_spelling_is_read(src: Seq<u8>, at: int, token: Token)
    requires
        !(token is Number),
        occurs(spelling(token), src, at),
    ensures
        word_at(src, at) == Ok::<(Token, int), ParseError>((token, at + spelling(token).len())),
        at < src.len(),
        !is_space(src[at]),
{
    reveal(occurs);
    let word = spelling(token);
    assert(src.subrange(at, at + word.len()) =~= word) by {
        assert forall|i: int| 0 <= i < word.len() implies src.subrange(at, at + word.len())[i]
            == word[i] by {
            assert(src[at + i] == word[i]);
        }
    }
    assert(src[at + 0] == word[0]);
    if word.len() >= 2 {
        assert(src[at + 1] == word[1]);
    }
    // No other word starts with the same two bytes
    assert forall|other: Token| !(other is Number) && other != token implies !has_at(
        src,
        at,
        spelling(other),
    ) by {
        let theirs = spelling(other);
        if has_at(src, at, theirs) {
            assert(src.subrange(at, at + theirs.len())[0] == src[at]);
            if theirs.len() >= 2 {
                assert(src.subrange(at, at + theirs.len())[1] == src[at + 1]);
            }
        }
    }
    assert(!has_at(src, at, spelling(Token::True)) || token == Token::True);
    assert(!has_at(src, at, spelling(Token::False)) || token == Token::False);
    assert(!has_at(src, at, spelling(Token::If)) || token == Token::If);
    assert(!has_at(src, at, spelling(Token::Then)) || token == Token::Then);
    assert(!has_at(src, at, spelling(Token::Else)) || token == Token::Else);
    assert(!has_at(src, at, spelling(Token::End)) || token == Token::End);
    assert(!has_at(src, at, spelling(Token::Colon)) || token == Token::Colon);
    assert(!has_at(src, at, spelling(Token::Int)) || token == Token::Int);
    assert(!has_at(src, at, spelling(Token::Bool)) || token == Token::Bool);
}

/// A number in decimal is written with digits, one at least, and they stand
/// for the number.
proof fn lemma_digits_stand_for(m: nat)
    ensures
        digits(m).len() > 0,
        forall|i: int| 0 <= i < digits(m).len() ==> is_digit(#[trigger] bytes_of(digits(m))[i]),
        digits_value(bytes_of(digits(m))) == m,
    decreases m,
{
    let text = bytes_of(digits(m));
    if m >= 10 {
        lemma_digits_stand_for(m / 10);
        let front = bytes_of(digits(m / 10));
        assert(text.drop_last() =~= front);
        assert(text.last() == digit(m % 10) as u8);
        assert forall|i: int| 0 <= i < digits(m).len() implies is_digit(#[trigger] text[i]) by {
            if i < front.len() {
                assert(text[i] == front[i]);
            }
        }
    } else {
        assert(text.drop_last() =~= seq![]);
        assert(digits_value(text.drop_last()) == 0);
    }
}

/// A run of digits ends where the digits do: where something else stands
/// behind them, or the text ends.
proof fn lemma_digit_run_ends(src: Seq<u8>, at: int, run: Seq<u8>)
    requires
        occurs(run, src, at),
        forall|i: int| 0 <= i < run.len() ==> is_digit(#[trigger] run[i]),
        no_digit_at(src, at + run.len()),
    ensures
        digits_end(src, at) == at + run.len(),
    decreases run.len(),
{
    reveal(occurs);
    if run.len() > 0 {
        let rest = run.drop_first();
        assert(src[at + 0] == run[0]);
        assert(occurs(rest, src, at + 1)) by {
            assert forall|i: int| 0 <= i < rest.len() implies #[trigger] src[at + 1 + i]
                == rest[i] by {
                assert(src[at + (i + 1)] == run[i + 1]);
            }
        }
        assert forall|i: int| 0 <= i < rest.len() implies is_digit(#[trigger] rest[i]) by {
            assert(rest[i] == run[i + 1]);
        }
        lemma_digit_run_ends(src, at + 1, rest);
    }
}

/// A number is read where it is written in decimal and no digit follows.
proof fn lemma_number_is_read(src: Seq<u8>, at: int, n: i64)
    requires
        occurs(bytes_of(decimal(n as int)), src, at),
        no_digit_at(src, at + decimal(n as int).len()),
    ensures
        word_at(src, at) == Ok::<(Token, int), ParseError>(
            (Token::Number(n), at + decimal(n as int).len()),
        ),
        at < src.len(),
        !is_space(src[at]),
{
    reveal(occurs);
    let text = bytes_of(decimal(n as int));
    let magnitude: nat = if n < 0 {
        (-n) as nat
    } else {
        n as nat
    };
    let run = bytes_of(digits(magnitude));
    lemma_digits_stand_for(magnitude);
    let from = if n < 0 {
        at + 1
    } else {
        at
    };
    assert(src[at + 0] == text[0]);
    if n < 0 {
        assert(text =~= seq![45u8] + run);
        lemma_occurs_split(seq![45u8], run, src, at);
    } else {
        assert(text =~= run);
        assert(is_digit(run[0]));
    }
    lemma_digit_run_ends(src, from, run);
    assert(src.subrange(from, from + run.len()) =~= run) by {
        assert forall|i: int| 0 <= i < run.len() implies src.subrange(from, from + run.len())[i]
            == run[i] by {
            assert(src[from + i] == run[i]);
        }
    }
    // No word that is always written the same starts with a digit or a minus
    assert(fixed_word_at(src, at) is None) by {
        assert forall|other: Token| !(other is Number) implies !has_at(
            src,
            at,
            spelling(other),
        ) by {
            let theirs = spelling(other);
            if has_at(src, at, theirs) {
                assert(src.subrange(at, at + theirs.len())[0] == src[at]);
            }
        }
        assert(!has_at(src, at, spelling(Token::True)));
        assert(!has_at(src, at, spelling(Token::False)));
        assert(!has_at(src, at, spelling(Token::If)));
        assert(!has_at(src, at, spelling(Token::Then)));
        assert(!has_at(src, at, spelling(Token::Else)));
        assert(!has_at(src, at, spelling(Token::End)));
        assert(!has_at(src, at, spelling(Token::Colon)));
        assert(!has_at(src, at, spelling(Token::Int)));
        assert(!has_at(src, at, spelling(Token::Bool)));
    }
}

/// Whether every byte of a piece is white space.
pub open spec fn all_spaces(piece: Seq<u8>) -> bool {
    forall|i: int| 0 <= i < piece.len() ==> is_space(#[trigger] piece[i])
}

/// A word that is always written the same, with white space before and behind
/// it, is read as that word alone.
proof fn lemma_keyword_piece(src: Seq<u8>, at: int, before: Seq<u8>, token: Token, after: Seq<u8>)
    requires
        !(token is Number),
        all_spaces(before),
        all_spaces(after),
        occurs(before + spelling(token) + after, src, at),
    ensures
        reads_as(before + spelling(token) + after, seq![token], src, at),
{
    reveal(occurs);
    reveal(reads_as);
    let word = spelling(token);
    let start = at + before.len();
    let end = start + word.len();
    lemma_occurs_split(before + word, after, src, at);
    lemma_occurs_split(before, word, src, at);
    assert forall|i: int| at <= i < start implies is_space(src[i]) by {
        assert(src[at + (i - at)] == before[i - at]);
    }
    assert forall|i: int| end <= i < end + after.len() implies is_space(src[i]) by {
        assert(src[end + (i - end)] == after[i - end]);
    }
    lemma_spaces_are_skipped(src, at, start);
    lemma_spelling_is_read(src, start, token);
    lemma_word_is_read(src, start, token, end);
    lemma_spaces_are_skipped(src, end, end + after.len());
}

/// Tabs are white space, however many.
proof fn lemma_tabs_are_spaces(indent: nat)
    ensures
        all_spaces(bytes_of(repeated("\t"@, indent))),
        bytes_of(repeated("\t"@, indent)).len() == indent,
    decreases indent,
{
    reveal_strlit("\t");
    if indent > 0 {
        lemma_tabs_are_spaces((indent - 1) as nat);
        let less = bytes_of(repeated("\t"@, (indent - 1) as nat));
        let all = bytes_of(repeated("\t"@, indent));
        assert(all =~= less + seq![9u8]);
        assert forall|i: int| 0 <= i < all.len() implies is_space(#[trigger] all[i]) by {
            if i < less.len() {
                assert(all[i] == less[i]);
            }
        }
    }
}

/// Where a piece stands, its first byte stands.
proof fn lemma_first_byte(piece: Seq<u8>, src: Seq<u8>, at: int)
    requires
        occurs(piece, src, at),
        piece.len() > 0,
    ensures
        0 <= at < src.len(),
        src[at] == piece[0],
{
    reveal(occurs);
    assert(src[at + 0] == piece[0]);
}

/// One word that is read where it stands is a piece that is read as that
/// word.
proof fn lemma_word_piece(src: Seq<u8>, at: int, token: Token, piece: Seq<u8>)
    requires
        0 <= at < src.len(),
        word_at(src, at) == Ok::<(Token, int), ParseError>((token, at + piece.len())),
        !is_space(src[at]),
    ensures
        reads_as(piece, seq![token], src, at),
{
    reveal(reads_as);
    lemma_word_is_read(src, at, token, at + piece.len());
}

/// Pieces that are read one after the other are read as a whole.
proof fn lemma_reads_chain(
    a: Seq<u8>,
    wa: Seq<Token>,
    b: Seq<u8>,
    wb: Seq<Token>,
    src: Seq<u8>,
    at: int,
)
    requires
        reads_as(a, wa, src, at),
        reads_as(b, wb, src, at + a.len()),
    ensures
        reads_as(a + b, wa + wb, src, at),
{
    reveal(reads_as);
    assert(kinds_from(src, at) =~= (wa + wb) + kinds_from(src, at + (a + b).len()));
}

/// The tabs of `indent` levels, as bytes.
pub open spec fn tabs(indent: nat) -> Seq<u8> {
    bytes_of(repeated("\t"@, indent))
}

/// What stands in front of the condition of an `if`.
pub open spec fn glue_if() -> Seq<u8> {
    seq![] + spelling(Token::If) + seq![32u8]
}

/// What stands between the condition and the first branch of an `if`.
pub open spec fn glue_then(indent: nat) -> Seq<u8> {
    seq![32u8] + spelling(Token::Then) + (seq![10u8] + tabs(indent) + seq![9u8])
}

/// What stands between the two branches of an `if`.
pub open spec fn glue_else(indent: nat) -> Seq<u8> {
    (seq![10u8] + tabs(indent)) + spelling(Token::Else) + (seq![10u8] + tabs(indent) + seq![9u8])
}

/// What stands behind the second branch of an `if`.
pub open spec fn glue_end(indent: nat) -> Seq<u8> {
    (seq![10u8] + tabs(indent)) + spelling(Token::End) + seq![]
}

/// What stands behind an annotated term.
pub open spec fn glue_type<T>(ty: Type<T>) -> Seq<u8> {
    (seq![] + spelling(Token::Colon) + seq![32u8]) + (seq![] + spelling(type_word(ty)) + seq![])
}

/// A line break and tabs are white space, with or without one tab more.
proof fn lemma_line_break_is_space(indent: nat)
    ensures
        all_spaces(seq![10u8] + tabs(indent)),
        all_spaces(seq![10u8] + tabs(indent) + seq![9u8]),
{
    lemma_tabs_are_spaces(indent);
    let same = seq![10u8] + tabs(indent);
    let deeper = same + seq![9u8];
    assert forall|i: int| 0 <= i < same.len() implies is_space(#[trigger] same[i]) by {
        if 0 < i {
            assert(same[i] == tabs(indent)[i - 1]);
        }
    }
    assert forall|i: int| 0 <= i < deeper.len() implies is_space(#[trigger] deeper[i]) by {
        if i < same.len() {
            assert(deeper[i] == same[i]);
        }
    }
}

/// What stands between the terms of an `if` is read as the word in it.
proof fn lemma_glue_is_read(src: Seq<u8>, at: int, indent: nat)
    ensures
        occurs(glue_if(), src, at) ==> reads_as(glue_if(), seq![Token::If], src, at),
        occurs(glue_then(indent), src, at) ==> reads_as(
            glue_then(indent),
            seq![Token::Then],
            src,
            at,
        ),
        occurs(glue_else(indent), src, at) ==> reads_as(
            glue_else(indent),
            seq![Token::Else],
            src,
            at,
        ),
        occurs(glue_end(indent), src, at) ==> reads_as(glue_end(indent), seq![Token::End], src, at),
{
    lemma_line_break_is_space(indent);
    let same = seq![10u8] + tabs(indent);
    let deeper = seq![10u8] + tabs(indent) + seq![9u8];
    if occurs(glue_if(), src, at) {
        lemma_keyword_piece(src, at, seq![], Token::If, seq![32u8]);
    }
    if occurs(glue_then(indent), src, at) {
        lemma_keyword_piece(src, at, seq![32u8], Token::Then, deeper);
    }
    if occurs(glue_else(indent), src, at) {
        lemma_keyword_piece(src, at, same, Token::Else, deeper);
    }
    if occurs(glue_end(indent), src, at) {
        lemma_keyword_piece(src, at, same, Token::End, seq![]);
    }
}

/// What stands behind an annotated term is read as `:` and the name of the
/// type.
proof fn lemma_glue_type_is_read<T>(src: Seq<u8>, at: int, ty: Type<T>)
    requires
        occurs(glue_type(ty), src, at),
    ensures
        reads_as(glue_type(ty), seq![Token::Colon, type_word(ty)], src, at),
{
    let colon = seq![] + spelling(Token::Colon) + seq![32u8];
    let name = seq![] + spelling(type_word(ty)) + seq![];
    lemma_occurs_split(colon, name, src, at);
    lemma_keyword_piece(src, at, seq![], Token::Colon, seq![32u8]);
    lemma_keyword_piece(src, at + colon.len(), seq![], type_word(ty), seq![]);
    lemma_reads_chain(colon, seq![Token::Colon], name, seq![type_word(ty)], src, at);
    assert(seq![Token::Colon] + seq![type_word(ty)] =~= seq![Token::Colon, type_word(ty)]);
}

/// How an `if` is written, piece by piece.
proof fn lemma_if_text<T>(cond: Expr<T>, on_true: Expr<T>, on_false: Expr<T>, extra: T, indent: nat)
    ensures
        bytes_of(
            pretty(
                Expr::IfFlow {
                    extra,
                    cond: Box::new(cond),
                    on_true: Box::new(on_true),
                    on_false: Box::new(on_false),
                },
                indent,
            ),
        ) == glue_if() + bytes_of(pretty(cond, indent)) + glue_then(indent) + bytes_of(
            pretty(on_true, indent + 1),
        ) + glue_else(indent) + bytes_of(pretty(on_false, indent + 1)) + glue_end(indent),
{
    reveal_strlit("if ");
    reveal_strlit(" then\n");
    reveal_strlit("\t");
    reveal_strlit("\n");
    reveal_strlit("else\n");
    reveal_strlit("end");
    let e = Expr::IfFlow {
        extra,
        cond: Box::new(cond),
        on_true: Box::new(on_true),
        on_false: Box::new(on_false),
    };
    let indents = repeated("\t"@, indent);
    let c = pretty(cond, indent);
    let t = pretty(on_true, indent + 1);
    let f = pretty(on_false, indent + 1);
    let head = "if "@;
    let middle = " then\n"@ + indents + "\t"@;
    let other = "\n"@ + indents + "else\n"@ + indents + "\t"@;
    let end = "\n"@ + indents + "end"@;
    assert(pretty(e, indent) =~= head + c + middle + t + other + f + end);
    lemma_bytes_of_concat(head + c + middle + t + other + f, end);
    lemma_bytes_of_concat(head + c + middle + t + other, f);
    lemma_bytes_of_concat(head + c + middle + t, other);
    lemma_bytes_of_concat(head + c + middle, t);
    lemma_bytes_of_concat(head + c, middle);
    lemma_bytes_of_concat(head, c);
    assert(bytes_of(head) =~= glue_if());
    assert(bytes_of(middle) =~= glue_then(indent));
    assert(bytes_of(other) =~= glue_else(indent));
    assert(bytes_of(end) =~= glue_end(indent));
}

/// How an annotated term is written, piece by piece.
proof fn lemma_annotated_text<T>(term: Expr<T>, ty: Type<T>, extra: T, indent: nat)
    ensures
        bytes_of(pretty(Expr::TypeAnno { extra, term: Box::new(term), ty }, indent)) == bytes_of(
            pretty(term, indent),
        ) + glue_type(ty),
{
    reveal_strlit(": ");
    reveal_strlit("int");
    reveal_strlit("bool");
    let e = Expr::TypeAnno { extra, term: Box::new(term), ty };
    assert(bytes_of(pretty(e, indent)) =~= bytes_of(pretty(term, indent)) + glue_type(ty));
}

/// Seven pieces that are read one after the other are read as a whole.
proof fn lemma_if_is_read(
    pieces: Seq<Seq<u8>>,
    words: Seq<Seq<Token>>,
    src: Seq<u8>,
    at: int,
)
    requires
        pieces.len() == 7,
        words.len() == 7,
        reads_as(pieces[0], words[0], src, at),
        reads_as(pieces[1], words[1], src, at + pieces[0].len()),
        reads_as(pieces[2], words[2], src, at + pieces[0].len() + pieces[1].len()),
        reads_as(
            pieces[3],
            words[3],
            src,
            at + pieces[0].len() + pieces[1].len() + pieces[2].len(),
        ),
        reads_as(
            pieces[4],
            words[4],
            src,
            at + pieces[0].len() + pieces[1].len() + pieces[2].len() + pieces[3].len(),
        ),
        reads_as(
            pieces[5],
            words[5],
            src,
            at + pieces[0].len() + pieces[1].len() + pieces[2].len() + pieces[3].len()
                + pieces[4].len(),
        ),
        reads_as(
            pieces[6],
            words[6],
            src,
            at + pieces[0].len() + pieces[1].len() + pieces[2].len() + pieces[3].len()
                + pieces[4].len() + pieces[5].len(),
        ),
    ensures
        reads_as(
            pieces[0] + pieces[1] + pieces[2] + pieces[3] + pieces[4] + pieces[5] + pieces[6],
            words[0] + words[1] + words[2] + words[3] + words[4] + words[5] + words[6],
            src,
            at,
        ),
{
    let p = pieces;
    let w = words;
    lemma_reads_chain(p[0], w[0], p[1], w[1], src, at);
    lemma_reads_chain(p[0] + p[1], w[0] + w[1], p[2], w[2], src, at);
    lemma_reads_chain(p[0] + p[1] + p[2], w[0] + w[1] + w[2], p[3], w[3], src, at);
    lemma_reads_chain(
        p[0] + p[1] + p[2] + p[3],
        w[0] + w[1] + w[2] + w[3],
        p[4],
        w[4],
        src,
        at,
    );
    lemma_reads_chain(
        p[0] + p[1] + p[2] + p[3] + p[4],
        w[0] + w[1] + w[2] + w[3] + w[4],
        p[5],
        w[5],
        src,
        at,
    );
    lemma_reads_chain(
        p[0] + p[1] + p[2] + p[3] + p[4] + p[5],
        w[0] + w[1] + w[2] + w[3] + w[4] + w[5],
        p[6],
        w[6],
        src,
        at,
    );
}

/// What is known of the pieces of an `if` where the whole stands: each piece
/// stands in its place, and behind each of the three terms no digit follows.
proof fn lemma_if_parts(
    c: Seq<u8>,
    t: Seq<u8>,
    f: Seq<u8>,
    indent: nat,
    src: Seq<u8>,
    at: int,
)
    requires
        occurs(
            glue_if() + c + glue_then(indent) + t + glue_else(indent) + f + glue_end(indent),
            src,
            at,
        ),
    ensures
        ({
            let at_c = at + glue_if().len();
            let at_then = at_c + c.len();
            let at_t = at_then + glue_then(indent).len();
            let at_else = at_t + t.len();
            let at_f = at_else + glue_else(indent).len();
            let at_end = at_f + f.len();
            &&& occurs(glue_if(), src, at)
            &&& occurs(c, src, at_c)
            &&& occurs(glue_then(indent), src, at_then)
            &&& occurs(t, src, at_t)
            &&& occurs(glue_else(indent), src, at_else)
            &&& occurs(f, src, at_f)
            &&& occurs(glue_end(indent), src, at_end)
            &&& no_digit_at(src, at_then)
            &&& no_digit_at(src, at_else)
            &&& no_digit_at(src, at_end)
        }),
{
    let k1 = glue_if();
    let k2 = glue_then(indent);
    let k3 = glue_else(indent);
    let k4 = glue_end(indent);
    lemma_occurs_split(k1 + c + k2 + t + k3 + f, k4, src, at);
    lemma_occurs_split(k1 + c + k2 + t + k3, f, src, at);
    lemma_occurs_split(k1 + c + k2 + t, k3, src, at);
    lemma_occurs_split(k1 + c + k2, t, src, at);
    lemma_occurs_split(k1 + c, k2, src, at);
    lemma_occurs_split(k1, c, src, at);
    let at_then = at + k1.len() + c.len();
    let at_else = at_then + k2.len() + t.len();
    let at_end = at_else + k3.len() + f.len();
    lemma_first_byte(k2, src, at_then);
    lemma_first_byte(k3, src, at_else);
    lemma_first_byte(k4, src, at_end);
}

/// What a term is written as is read as the words of the term, wherever it
/// stands, provided no digit follows it.
pub proof fn lemma_pretty_is_read<T>(e: Expr<T>, indent: nat, src: Seq<u8>, at: int)
    requires
        occurs(bytes_of(pretty(e, indent)), src, at),
        no_digit_at(src, at + pretty(e, indent).len()),
    ensures
        reads_as(bytes_of(pretty(e, indent)), written(e), src, at),
    decreases e,
{
    let text = bytes_of(pretty(e, indent));
    match e {
        Expr::IntLit(_, n) => {
            lemma_number_is_read(src, at, n);
            lemma_word_piece(src, at, Token::Number(n), text);
        },
        Expr::BoolLit(_, b) => {
            reveal_strlit("true");
            reveal_strlit("false");
            let token = if b {
                Token::True
            } else {
                Token::False
            };
            assert(text =~= seq![] + spelling(token) + seq![]);
            lemma_keyword_piece(src, at, seq![], token, seq![]);
        },
        Expr::TypeAnno { extra, term, ty } => {
            let inner = bytes_of(pretty(*term, indent));
            lemma_annotated_text(*term, ty, extra, indent);
            lemma_occurs_split(inner, glue_type(ty), src, at);
            // A colon follows the term
            lemma_first_byte(glue_type(ty), src, at + inner.len());
            lemma_pretty_is_read(*term, indent, src, at);
            lemma_glue_type_is_read(src, at + inner.len(), ty);
            lemma_reads_chain(
                inner,
                written(*term),
                glue_type(ty),
                seq![Token::Colon, type_word(ty)],
                src,
                at,
            );
        },
        Expr::IfFlow { extra, cond, on_true, on_false } => {
            let c = bytes_of(pretty(*cond, indent));
            let t = bytes_of(pretty(*on_true, indent + 1));
            let f = bytes_of(pretty(*on_false, indent + 1));
            let k1 = glue_if();
            let k2 = glue_then(indent);
            let k3 = glue_else(indent);
            let k4 = glue_end(indent);
            lemma_if_text(*cond, *on_true, *on_false, extra, indent);
            lemma_if_parts(c, t, f, indent, src, at);
            let at_c = at + k1.len();
            let at_k2 = at_c + c.len();
            let at_t = at_k2 + k2.len();
            let at_k3 = at_t + t.len();
            let at_f = at_k3 + k3.len();
            let at_k4 = at_f + f.len();
            lemma_glue_is_read(src, at, indent);
            lemma_pretty_is_read(*cond, indent, src, at_c);
            lemma_glue_is_read(src, at_k2, indent);
            lemma_pretty_is_read(*on_true, indent + 1, src, at_t);
            lemma_glue_is_read(src, at_k3, indent);
            lemma_pretty_is_read(*on_false, indent + 1, src, at_f);
            lemma_glue_is_read(src, at_k4, indent);
            lemma_if_is_read(
                seq![k1, c, k2, t, k3, f, k4],
                seq![
                    seq![Token::If],
                    written(*cond),
                    seq![Token::Then],
                    written(*on_true),
                    seq![Token::Else],
                    written(*on_false),
                    seq![Token::End],
                ],
                src,
                at,
            );
        },
    }
}

/// A number in decimal is written with plain characters.
proof fn lemma_decimal_is_ascii(n: int)
    ensures
        is_ascii_chars(decimal(n)),
{
    let magnitude: nat = if n < 0 {
        (-n) as nat
    } else {
        n as nat
    };
    lemma_digits_are_ascii(magnitude);
    assert forall|i: int| 0 <= i < decimal(n).len() implies '\0' <= #[trigger] decimal(n)[i]
        <= '\u{7f}' by {
        if n < 0 && i > 0 {
            assert(decimal(n)[i] == digits(magnitude)[i - 1]);
        }
    }
}

/// The digits of a number are plain characters.
proof fn lemma_digits_are_ascii(m: nat)
    ensures
        is_ascii_chars(digits(m)),
    decreases m,
{
    if m >= 10 {
        lemma_digits_are_ascii(m / 10);
        assert forall|i: int| 0 <= i < digits(m).len() implies '\0' <= #[trigger] digits(m)[i]
            <= '\u{7f}' by {
            if i < digits(m / 10).len() {
                assert(digits(m)[i] == digits(m / 10)[i]);
            }
        }
    }
}

/// Tabs are plain characters.
proof fn lemma_tabs_are_ascii(indent: nat)
    ensures
        is_ascii_chars(repeated("\t"@, indent)),
    decreases indent,
{
    reveal_strlit("\t");
    if indent > 0 {
        lemma_tabs_are_ascii((indent - 1) as nat);
        let less = repeated("\t"@, (indent - 1) as nat);
        assert forall|i: int| 0 <= i < repeated("\t"@, indent).len() implies '\0'
            <= #[trigger] repeated("\t"@, indent)[i] <= '\u{7f}' by {
            if i < less.len() {
                assert(repeated("\t"@, indent)[i] == less[i]);
            }
        }
    }
}

/// Two texts of plain characters, one after the other, are a text of plain
/// characters.
proof fn lemma_ascii_concat(a: Seq<char>, b: Seq<char>)
    requires
        is_ascii_chars(a),
        is_ascii_chars(b),
    ensures
        is_ascii_chars(a + b),
{
    assert forall|i: int| 0 <= i < (a + b).len() implies '\0' <= #[trigger] (a + b)[i]
        <= '\u{7f}' by {
        if i < a.len() {
            assert((a + b)[i] == a[i]);
        } else {
            assert((a + b)[i] == b[i - a.len()]);
        }
    }
}

/// A term is written with plain characters.
pub proof fn lemma_pretty_is_ascii<T>(e: Expr<T>, indent: nat)
    ensures
        is_ascii_chars(pretty(e, indent)),
    decreases e,
{
    match e {
        Expr::IntLit(_, n) => {
            lemma_decimal_is_ascii(n as int);
        },
        Expr::BoolLit(_, _) => {
            reveal_strlit("true");
            reveal_strlit("false");
        },
        Expr::TypeAnno { term, ty, .. } => {
            reveal_strlit(": ");
            reveal_strlit("int");
            reveal_strlit("bool");
            lemma_pretty_is_ascii(*term, indent);
            lemma_ascii_concat(pretty(*term, indent), ": "@);
            lemma_ascii_concat(pretty(*term, indent) + ": "@, ty.name());
        },
        Expr::IfFlow { cond, on_true, on_false, .. } => {
            reveal_strlit("if ");
            reveal_strlit(" then\n");
            reveal_strlit("\t");
            reveal_strlit("\n");
            reveal_strlit("else\n");
            reveal_strlit("end");
            lemma_pretty_is_ascii(*cond, indent);
            lemma_pretty_is_ascii(*on_true, indent + 1);
            lemma_pretty_is_ascii(*on_false, indent + 1);
            lemma_tabs_are_ascii(indent);
            let indents = repeated("\t"@, indent);
            let c = pretty(*cond, indent);
            let t = pretty(*on_true, indent + 1);
            let f = pretty(*on_false, indent + 1);
            let p1 = "if "@ + c;
            lemma_ascii_concat("if "@, c);
            let p2 = p1 + " then\n"@;
            lemma_ascii_concat(p1, " then\n"@);
            let p3 = p2 + indents;
            lemma_ascii_concat(p2, indents);
            let p4 = p3 + "\t"@;
            lemma_ascii_concat(p3, "\t"@);
            let p5 = p4 + t;
            lemma_ascii_concat(p4, t);
            let p6 = p5 + "\n"@;
            lemma_ascii_concat(p5, "\n"@);
            let p7 = p6 + indents;
            lemma_ascii_concat(p6, indents);
            let p8 = p7 + "else\n"@;
            lemma_ascii_concat(p7, "else\n"@);
            let p9 = p8 + indents;
            lemma_ascii_concat(p8, indents);
            let p10 = p9 + "\t"@;
            lemma_ascii_concat(p9, "\t"@);
            let p11 = p10 + f;
            lemma_ascii_concat(p10, f);
            let p12 = p11 + "\n"@;
            lemma_ascii_concat(p11, "\n"@);
            let p13 = p12 + indents;
            lemma_ascii_concat(p12, indents);
            lemma_ascii_concat(p13, "end"@);
        },
    }
}

/// What is printed is read. The parser takes the text that a term is written
/// as, at whatever depth, and returns that term: the same nodes, the same
/// literals, the same types, and for annotations the places at which the
/// nodes stand in the text.
pub proof fn lemma_printed_is_read<T>(e: Expr<T>, indent: nat)
    ensures
        encode_utf8(pretty(e, indent)) == bytes_of(pretty(e, indent)),
        parse_spec(bytes_of(pretty(e, indent))) matches Ok(read) && read.erased() == e.erased(),
{
    let text = pretty(e, indent);
    let src = bytes_of(text);
    lemma_pretty_is_ascii(e, indent);
    is_ascii_chars_encode_utf8(text);
    assert(encode_utf8(text) =~= src);

    assert(occurs(src, src, 0)) by {
        reveal(occurs);
    }
    lemma_pretty_is_read(e, indent, src, 0);
    let words = words_from(src, 0);
    assert(words.stop is None && words.tokens.len() == written(e).len() && forall|i: int|
        0 <= i < written(e).len() ==> (#[trigger] words.tokens[0 + i]).1 == written(e)[i]) by {
        reveal(reads_as);
        // Behind the text there are no words
        assert(words_from(src, src.len() as int).tokens =~= seq![]);
        assert(kinds_from(src, 0) =~= written(e));
        assert forall|i: int| 0 <= i < written(e).len() implies (#[trigger] words.tokens[0 + i]).1
            == written(e)[i] by {
            assert(kinds_from(src, 0)[i] == words.tokens[i].1);
        }
    }
    lemma_written_ignores_annotations(e);
    lemma_grammar(words, e.erased());
}

} // verus!
