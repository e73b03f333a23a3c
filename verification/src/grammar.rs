//! What the parser accepts, said without the parser: the words that a term is
//! written with, and the laws that tie them to what the parser returns.

use crate::ast::{Expr, JustExpr, Span, SpanExpr, Type};
use crate::syntax::{annotated_at, atom_at, is_at, program, term_at, ParseError, Token, Words};
use vstd::prelude::*;

verus! {

/// The word that names a type.
pub open spec fn type_word<T>(ty: Type<T>) -> Token {
    match ty {
        Type::Int(_) => Token::Int,
        Type::Bool(_) => Token::Bool,
    }
}

/// The words that a term is written with, in order. A literal is one word;
/// an annotation puts `:` and the name of the type behind the term; an `if`
/// is its three terms between `if`, `then`, `else` and `end`.
pub open spec fn written<T>(e: Expr<T>) -> Seq<Token>
    decreases e,
{
    match e {
        Expr::IntLit(_, n) => seq![Token::Number(n)],
        Expr::BoolLit(_, b) => seq![
            if b {
                Token::True
            } else {
                Token::False
            },
        ],
        Expr::TypeAnno { term, ty, .. } => written(*term) + seq![Token::Colon, type_word(ty)],
        Expr::IfFlow { cond, on_true, on_false, .. } => seq![Token::If] + written(*cond) + seq![
            Token::Then,
        ] + written(*on_true) + seq![Token::Else] + written(*on_false) + seq![Token::End],
    }
}

/// Whether the words `ws` stand in `tokens` from `pos` on.
pub open spec fn reads(tokens: Seq<(usize, Token, usize)>, pos: int, ws: Seq<Token>) -> bool {
    &&& 0 <= pos
    &&& pos + ws.len() <= tokens.len()
    &&& forall|i: int| 0 <= i < ws.len() ==> (#[trigger] tokens[pos + i]).1 == ws[i]
}

/// The term `shape` with the places of the source put in, where it is
/// written from `pos` on: every node reaches from the start of its first word
/// to the end of its last.
pub open spec fn spanned(shape: JustExpr, tokens: Seq<(usize, Token, usize)>, pos: int) -> SpanExpr
    decreases shape,
{
    match shape {
        Expr::IntLit(_, n) => Expr::IntLit(Span(tokens[pos].0, tokens[pos].2), n),
        Expr::BoolLit(_, b) => Expr::BoolLit(Span(tokens[pos].0, tokens[pos].2), b),
        Expr::TypeAnno { term, ty, .. } => {
            let name = tokens[pos + written(*term).len() + 1];
            let span = Span(name.0, name.2);
            Expr::TypeAnno {
                extra: Span(spanned(*term, tokens, pos).spec_extra().0, name.2),
                term: Box::new(spanned(*term, tokens, pos)),
                ty: match ty {
                    Type::Int(_) => Type::Int(span),
                    Type::Bool(_) => Type::Bool(span),
                },
            }
        },
        Expr::IfFlow { cond, on_true, on_false, .. } => {
            let then_pos = pos + 1 + written(*cond).len();
            let else_pos = then_pos + 1 + written(*on_true).len();
            let end_pos = else_pos + 1 + written(*on_false).len();
            Expr::IfFlow {
                extra: Span(tokens[pos].0, tokens[end_pos].2),
                cond: Box::new(spanned(*cond, tokens, pos + 1)),
                on_true: Box::new(spanned(*on_true, tokens, then_pos + 1)),
                on_false: Box::new(spanned(*on_false, tokens, else_pos + 1)),
            }
        },
    }
}

/// The annotations of a term take no part in how it is written.
pub proof fn lemma_written_ignores_annotations<T>(e: Expr<T>)
    ensures
        written(e.erased()) == written(e),
    decreases e,
{
    match e {
        Expr::TypeAnno { term, .. } => {
            lemma_written_ignores_annotations(*term);
        },
        Expr::IfFlow { cond, on_true, on_false, .. } => {
            lemma_written_ignores_annotations(*cond);
            lemma_written_ignores_annotations(*on_true);
            lemma_written_ignores_annotations(*on_false);
        },
        _ => {},
    }
}

/// Putting the places in changes nothing else: without them the term is the
/// one that was written.
pub proof fn lemma_spanned_erased(shape: JustExpr, tokens: Seq<(usize, Token, usize)>, pos: int)
    ensures
        spanned(shape, tokens, pos).erased() == shape,
    decreases shape,
{
    match shape {
        Expr::IntLit(u, _) => {
            assert(u == ());
        },
        Expr::BoolLit(u, _) => {
            assert(u == ());
        },
        Expr::TypeAnno { extra, term, ty } => {
            lemma_spanned_erased(*term, tokens, pos);
            assert(extra == ());
            assert(ty.spec_extra() == ());
        },
        Expr::IfFlow { extra, cond, on_true, on_false } => {
            let then_pos = pos + 1 + written(*cond).len();
            let else_pos = then_pos + 1 + written(*on_true).len();
            lemma_spanned_erased(*cond, tokens, pos + 1);
            lemma_spanned_erased(*on_true, tokens, then_pos + 1);
            lemma_spanned_erased(*on_false, tokens, else_pos + 1);
            assert(extra == ());
        },
    }
}

/// Words that stand one after the other stand there as a whole, and the
/// other way round.
proof fn lemma_reads_split(
    tokens: Seq<(usize, Token, usize)>,
    pos: int,
    a: Seq<Token>,
    b: Seq<Token>,
)
    ensures
        reads(tokens, pos, a + b) <==> reads(tokens, pos, a) && reads(tokens, pos + a.len(), b),
{
    if reads(tokens, pos, a + b) {
        assert forall|i: int| 0 <= i < a.len() implies (#[trigger] tokens[pos + i]).1 == a[i] by {
            assert((a + b)[i] == a[i]);
        }
        assert forall|i: int| 0 <= i < b.len() implies (#[trigger] tokens[pos + a.len() + i]).1
            == b[i] by {
            assert((a + b)[a.len() + i] == b[i]);
            assert(tokens[pos + (a.len() + i)].1 == (a + b)[a.len() + i]);
        }
    }
    if reads(tokens, pos, a) && reads(tokens, pos + a.len(), b) {
        assert forall|i: int| 0 <= i < (a + b).len() implies (#[trigger] tokens[pos + i]).1 == (a
            + b)[i] by {
            if i >= a.len() {
                assert(tokens[pos + a.len() + (i - a.len())].1 == b[i - a.len()]);
            }
        }
    }
}

/// A term is written with one word at least, and the first is none of `:`,
/// `then`, `else`, `end` or the name of a type.
proof fn lemma_written_starts_a_term<T>(e: Expr<T>)
    ensures
        written(e).len() > 0,
        written(e)[0] is Number || written(e)[0] == Token::True || written(e)[0] == Token::False
            || written(e)[0] == Token::If,
    decreases e,
{
    match e {
        Expr::TypeAnno { term, .. } => {
            lemma_written_starts_a_term(*term);
        },
        _ => {},
    }
}

/// What is written is read: where the words of a term stand from `pos` on,
/// the parser reads that term there, with its places put in, and goes on
/// with the annotations that may follow.
pub proof fn lemma_written_is_read(words: Words, pos: int, shape: JustExpr)
    requires
        reads(words.tokens, pos, written(shape)),
    ensures
        term_at(words, pos) == annotated_at(
            words,
            pos + written(shape).len(),
            spanned(shape, words.tokens, pos),
        ),
        !(shape is TypeAnno) ==> atom_at(words, pos) == Ok::<(SpanExpr, int), ParseError>(
            (spanned(shape, words.tokens, pos), pos + written(shape).len()),
        ),
    decreases shape,
{
    let tokens = words.tokens;
    match shape {
        Expr::IntLit(_, n) => {
            assert(tokens[pos + 0].1 == written(shape)[0]);
        },
        Expr::BoolLit(_, b) => {
            assert(tokens[pos + 0].1 == written(shape)[0]);
        },
        Expr::TypeAnno { term, ty, .. } => {
            let n = written(*term).len() as int;
            lemma_reads_split(tokens, pos, written(*term), seq![Token::Colon, type_word(ty)]);
            lemma_written_is_read(words, pos, *term);
            assert(tokens[pos + n + 0].1 == Token::Colon);
            assert(tokens[pos + n + 1].1 == type_word(ty));
            assert(is_at(words, pos + n, Token::Colon));
        },
        Expr::IfFlow { cond, on_true, on_false, .. } => {
            let c = written(*cond);
            let t = written(*on_true);
            let f = written(*on_false);
            let then_pos = pos + 1 + c.len();
            let else_pos = then_pos + 1 + t.len();
            let end_pos = else_pos + 1 + f.len();
            lemma_reads_split(
                tokens,
                pos,
                seq![Token::If] + c + seq![Token::Then] + t + seq![Token::Else] + f,
                seq![Token::End],
            );
            lemma_reads_split(
                tokens,
                pos,
                seq![Token::If] + c + seq![Token::Then] + t + seq![Token::Else],
                f,
            );
            lemma_reads_split(
                tokens,
                pos,
                seq![Token::If] + c + seq![Token::Then] + t,
                seq![Token::Else],
            );
            lemma_reads_split(tokens, pos, seq![Token::If] + c + seq![Token::Then], t);
            lemma_reads_split(tokens, pos, seq![Token::If] + c, seq![Token::Then]);
            lemma_reads_split(tokens, pos, seq![Token::If], c);
            assert(tokens[pos + 0].1 == Token::If);
            assert(tokens[then_pos + 0].1 == Token::Then);
            assert(tokens[else_pos + 0].1 == Token::Else);
            assert(tokens[end_pos + 0].1 == Token::End);
            lemma_written_is_read(words, pos + 1, *cond);
            lemma_written_is_read(words, then_pos + 1, *on_true);
            lemma_written_is_read(words, else_pos + 1, *on_false);
            assert(!is_at(words, then_pos, Token::Colon));
            assert(!is_at(words, else_pos, Token::Colon));
            assert(!is_at(words, end_pos, Token::Colon));
            assert(is_at(words, then_pos, Token::Then));
            assert(is_at(words, else_pos, Token::Else));
            assert(is_at(words, end_pos, Token::End));
        },
    }
}

/// What is read was written, for the annotations that follow a term: if the
/// words from `start` up to `pos` are those of `term`, then the words from
/// `start` up to where the annotations end are those of the annotated term.
proof fn lemma_annotated_was_written(words: Words, start: int, pos: int, term: SpanExpr)
    requires
        0 <= start < pos <= words.tokens.len(),
        reads(words.tokens, start, written(term)),
        written(term).len() == pos - start,
        term.spec_extra() == Span(words.tokens[start].0, words.tokens[pos - 1].2),
    ensures
        annotated_at(words, pos, term) matches Ok((e, end)) ==> {
            &&& pos <= end <= words.tokens.len()
            &&& reads(words.tokens, start, written(e))
            &&& written(e).len() == end - start
            &&& e.spec_extra() == Span(words.tokens[start].0, words.tokens[end - 1].2)
        },
    decreases words.tokens.len() - pos,
{
    let tokens = words.tokens;
    if is_at(words, pos, Token::Colon) {
        if is_at(words, pos + 1, Token::Int) || is_at(words, pos + 1, Token::Bool) {
            let name = tokens[pos + 1];
            let span = Span(name.0, name.2);
            let ty = if name.1 == Token::Int {
                Type::Int(span)
            } else {
                Type::Bool(span)
            };
            let whole = Expr::TypeAnno {
                extra: Span(term.spec_extra().0, name.2),
                term: Box::new(term),
                ty,
            };
            let tail = seq![Token::Colon, type_word(ty)];
            assert(reads(tokens, pos, tail)) by {
                assert forall|i: int| 0 <= i < tail.len() implies (#[trigger] tokens[pos + i]).1
                    == tail[i] by {
                    if i == 0 {
                        assert(tokens[pos + 0] == tokens[pos]);
                    } else {
                        assert(tokens[pos + 1] == name);
                    }
                }
            }
            lemma_reads_split(tokens, start, written(term), tail);
            lemma_annotated_was_written(words, start, pos + 2, whole);
        }
    }
}

/// What is read was written: the term that the parser reads at `pos` is
/// written with exactly the words that it took, and reaches from the start
/// of the first to the end of the last.
pub proof fn lemma_read_was_written(words: Words, pos: int)
    requires
        0 <= pos,
    ensures
        term_at(words, pos) matches Ok((e, end)) ==> {
            &&& pos < end <= words.tokens.len()
            &&& reads(words.tokens, pos, written(e))
            &&& written(e).len() == end - pos
            &&& e.spec_extra() == Span(words.tokens[pos].0, words.tokens[end - 1].2)
        },
        atom_at(words, pos) matches Ok((e, end)) ==> {
            &&& pos < end <= words.tokens.len()
            &&& reads(words.tokens, pos, written(e))
            &&& written(e).len() == end - pos
            &&& e.spec_extra() == Span(words.tokens[pos].0, words.tokens[end - 1].2)
        },
    decreases words.tokens.len() - pos,
{
    let tokens = words.tokens;
    if pos < tokens.len() {
        match tokens[pos].1 {
            Token::If => {
                lemma_read_was_written(words, pos + 1);
                if let Ok((cond, then_pos)) = term_at(words, pos + 1) {
                    if is_at(words, then_pos, Token::Then) {
                        lemma_read_was_written(words, then_pos + 1);
                        if let Ok((on_true, else_pos)) = term_at(words, then_pos + 1) {
                            if is_at(words, else_pos, Token::Else) {
                                lemma_read_was_written(words, else_pos + 1);
                                if let Ok((on_false, end_pos)) = term_at(words, else_pos + 1) {
                                    if is_at(words, end_pos, Token::End) {
                                        let c = written(cond);
                                        let t = written(on_true);
                                        let f = written(on_false);
                                        assert(reads(tokens, pos, seq![Token::If])) by {
                                            assert(tokens[pos + 0] == tokens[pos]);
                                        }
                                        assert(reads(tokens, then_pos, seq![Token::Then])) by {
                                            assert(tokens[then_pos + 0] == tokens[then_pos]);
                                        }
                                        assert(reads(tokens, else_pos, seq![Token::Else])) by {
                                            assert(tokens[else_pos + 0] == tokens[else_pos]);
                                        }
                                        assert(reads(tokens, end_pos, seq![Token::End])) by {
                                            assert(tokens[end_pos + 0] == tokens[end_pos]);
                                        }
                                        lemma_reads_split(tokens, pos, seq![Token::If], c);
                                        lemma_reads_split(
                                            tokens,
                                            pos,
                                            seq![Token::If] + c,
                                            seq![Token::Then],
                                        );
                                        lemma_reads_split(
                                            tokens,
                                            pos,
                                            seq![Token::If] + c + seq![Token::Then],
                                            t,
                                        );
                                        lemma_reads_split(
                                            tokens,
                                            pos,
                                            seq![Token::If] + c + seq![Token::Then] + t,
                                            seq![Token::Else],
                                        );
                                        lemma_reads_split(
                                            tokens,
                                            pos,
                                            seq![Token::If] + c + seq![Token::Then] + t + seq![
                                                Token::Else,
                                            ],
                                            f,
                                        );
                                        lemma_reads_split(
                                            tokens,
                                            pos,
                                            seq![Token::If] + c + seq![Token::Then] + t + seq![
                                                Token::Else,
                                            ] + f,
                                            seq![Token::End],
                                        );
                                    }
                                }
                            }
                        }
                    }
                }
            },
            Token::Number(n) => {
                assert(reads(tokens, pos, seq![Token::Number(n)])) by {
                    assert(tokens[pos + 0] == tokens[pos]);
                }
            },
            Token::True => {
                assert(reads(tokens, pos, seq![Token::True])) by {
                    assert(tokens[pos + 0] == tokens[pos]);
                }
            },
            Token::False => {
                assert(reads(tokens, pos, seq![Token::False])) by {
                    assert(tokens[pos + 0] == tokens[pos]);
                }
            },
            _ => {},
        }
    }
    if let Ok((atom, next)) = atom_at(words, pos) {
        lemma_annotated_was_written(words, pos, next, atom);
    }
}

/// Whether the words are those of the term `e` and no others.
pub open spec fn spells<T>(words: Words, e: Expr<T>) -> bool {
    &&& words.stop is None
    &&& words.tokens.len() == written(e).len()
    &&& reads(words.tokens, 0, written(e))
}

/// The grammar. The parser accepts a text exactly when its words are those of
/// a term, and then it returns that term, each node with the place at which
/// it is written:
/// what it returns is written with the words of the text, all of them; and
/// where the words of the text are those of a term, it returns that term.
pub proof fn lemma_grammar(words: Words, shape: JustExpr)
    ensures
        program(words) matches Ok(e) ==> spells(words, e),
        spells(words, shape) ==> program(words) == Ok::<SpanExpr, ParseError>(
            spanned(shape, words.tokens, 0),
        ) && spanned(shape, words.tokens, 0).erased() == shape,
{
    lemma_read_was_written(words, 0);
    if spells(words, shape) {
        lemma_written_is_read(words, 0, shape);
        lemma_spanned_erased(shape, words.tokens, 0);
        lemma_written_starts_a_term(shape);
    }
}

} // verus!
